//! From the tree that a parser hands over to a program: number literals are
//! read, text literals lose their quotes, and the shape of the tree is held
//! to what a source can give.

use vstd::prelude::*;
use crate::ast::{asts_of, lemma_asts_of, Ast, CauchemarAST, CauchemarProgram};
use crate::table::NameTable;
use crate::text::{decimal, digit, digits};

verus! {

/// What a node of the parse tree stands for.
#[derive(Debug, Clone, Copy, PartialEq, Eq, Structural)]
pub enum NodeKind {
    /// The whole source; its children are routines and the end of input.
    Program,
    /// A routine; its first child carries the name, the others are commands.
    Routine,
    Identifier,
    Number,
    String,
    True,
    False,
    Add,
    Sub,
    Mul,
    Div,
    /// A conditional; its children are the then branch and, if there is one,
    /// the else branch.
    IfBlock,
    /// A branch of a conditional; its children are commands.
    Branch,
    /// A loop; its children are the commands of its body.
    WhileBlock,
    EndOfInput,
}

/// A node of the parse tree as the specifications see it.
pub struct Node {
    pub kind: NodeKind,
    pub text: Seq<char>,
    pub position: int,
    pub children: Seq<Node>,
}

/// A node of the parse tree: what it stands for, the piece of source that it
/// covers, where that piece starts, and the nodes below it.
#[derive(Debug, PartialEq, Eq)]
pub struct ParseNode {
    pub kind: NodeKind,
    pub text: String,
    pub position: usize,
    pub children: Vec<ParseNode>,
}

/// The node that an executable node stands for.
pub open spec fn node_of(n: ParseNode) -> Node
    decreases n,
{
    Node {
        kind: n.kind,
        text: n.text@,
        position: n.position as int,
        children: nodes_of(n.children@),
    }
}

/// The nodes that a list of executable nodes stands for, in order.
pub open spec fn nodes_of(s: Seq<ParseNode>) -> Seq<Node>
    decreases s,
{
    if s.len() == 0 {
        Seq::empty()
    } else {
        nodes_of(s.drop_last()).push(node_of(s.last()))
    }
}

impl View for ParseNode {
    type V = Node;

    open spec fn view(&self) -> Node {
        node_of(*self)
    }
}

/// `nodes_of` keeps the length of a list and maps it node by node.
pub proof fn lemma_nodes_of(s: Seq<ParseNode>)
    ensures
        nodes_of(s).len() == s.len(),
        forall|i: int| 0 <= i < s.len() ==> #[trigger] nodes_of(s)[i] == node_of(s[i]),
    decreases s.len(),
{
    if s.len() > 0 {
        lemma_nodes_of(s.drop_last());
    }
}

/// Why a parse tree is no program.
#[derive(Debug, Clone, Copy, PartialEq, Eq, Structural)]
pub enum ParseFaultReason {
    /// The tree has a shape that no source gives.
    Malformed,
    /// A number literal is no 32-bit signed integer.
    BadNumber,
}

/// A fault of the source, with the position of the node at which it was
/// found.
#[derive(Debug, Clone, Copy, PartialEq, Eq, Structural)]
pub struct ParseFault {
    pub reason: ParseFaultReason,
    pub position: usize,
}

/// Whether a character is a decimal digit.
pub open spec fn is_digit(c: char) -> bool {
    '0' <= c <= '9'
}

/// The number that a sequence of decimal digits stands for.
pub open spec fn digits_value(s: Seq<char>) -> nat
    decreases s.len(),
{
    if s.len() == 0 {
        0
    } else {
        digits_value(s.drop_last()) * 10 + (s.last() as u32 - '0' as u32) as nat
    }
}

/// Whether a text has a sign in front.
pub open spec fn has_sign(text: Seq<char>) -> bool {
    text.len() > 0 && (text[0] == '-' || text[0] == '+')
}

/// The text without its sign.
pub open spec fn unsigned(text: Seq<char>) -> Seq<char> {
    if has_sign(text) {
        text.drop_first()
    } else {
        text
    }
}

/// The integer that a text stands for, sign included, whether it fits 32
/// bits or not.
pub open spec fn signed_value(text: Seq<char>) -> int {
    if text.len() > 0 && text[0] == '-' {
        -(digits_value(unsigned(text)) as int)
    } else {
        digits_value(unsigned(text)) as int
    }
}

/// The number that a text stands for: an optional sign, then one or more
/// decimal digits and nothing else, with a value that fits 32 bits.
pub open spec fn number_of(text: Seq<char>) -> Option<i32> {
    let body = unsigned(text);
    if body.len() > 0 && (forall|i: int| 0 <= i < body.len() ==> is_digit(#[trigger] body[i]))
        && i32::MIN <= signed_value(text) <= i32::MAX {
        Some(signed_value(text) as i32)
    } else {
        None
    }
}

/// The value of digits does not shrink when more digits follow.
proof fn lemma_digits_value_grows(s: Seq<char>, i: int)
    requires
        0 <= i <= s.len(),
        forall|j: int| 0 <= j < s.len() ==> is_digit(#[trigger] s[j]),
    ensures
        digits_value(s.take(i)) <= digits_value(s),
    decreases s.len() - i,
{
    if i < s.len() {
        lemma_digits_value_grows(s, i + 1);
        assert(s.take(i + 1).drop_last() =~= s.take(i));
        assert(s.take(i + 1).last() == s[i]);
    } else {
        assert(s.take(i) =~= s);
    }
}

/// The decimal digits of a natural number are digits and stand for it.
pub proof fn lemma_digits_read_back(n: nat)
    ensures
        digits(n).len() > 0,
        forall|i: int| 0 <= i < digits(n).len() ==> is_digit(#[trigger] digits(n)[i]),
        digits_value(digits(n)) == n,
    decreases n,
{
    let d = if n < 10 {
        n
    } else {
        n % 10
    };
    assert(is_digit(digit(d)) && (digit(d) as u32 - '0' as u32) as nat == d);
    if n < 10 {
        assert(digits(n).drop_last() =~= Seq::<char>::empty());
        assert(digits_value(digits(n).drop_last()) == 0);
    } else {
        lemma_digits_read_back(n / 10);
        assert(digits(n).drop_last() =~= digits(n / 10));
    }
}

/// What is written of a number reads back as that number.
pub proof fn lemma_number_reads_back(n: i32)
    ensures
        number_of(decimal(n as int)) == Some(n),
{
    let text = decimal(n as int);
    if n < 0 {
        lemma_digits_read_back((-n) as nat);
        assert(text.drop_first() =~= digits((-n) as nat));
    } else {
        lemma_digits_read_back(n as nat);
        assert(is_digit(text[0]));
    }
}

/// Reads a number literal.
pub fn read_number(text: &str) -> (r: Option<i32>)
    ensures
        r == number_of(text@),
{
    let len = text.unicode_len();
    if len == 0 {
        return None;
    }
    let first = text.get_char(0);
    let negative = first == '-';
    let start: usize = if first == '-' || first == '+' {
        1
    } else {
        0
    };
    if start == len {
        return None;
    }
    let ghost body = unsigned(text@);
    let mut value: i64 = 0;
    let mut i: usize = start;
    proof {
        assert(body.take(0) =~= Seq::<char>::empty());
    }
    while i < len
        invariant
            start <= i <= len,
            len == text@.len(),
            body == unsigned(text@),
            body.len() == len - start,
            forall|j: int| 0 <= j < body.len() ==> body[j] == text@[start + j],
            forall|j: int| 0 <= j < i - start ==> is_digit(#[trigger] body[j]),
            value == digits_value(body.take(i - start)),
            0 <= value <= 0x8000_0000,
        decreases len - i,
    {
        let c = text.get_char(i);
        if !(c >= '0' && c <= '9') {
            assert(!is_digit(body[i - start]));
            return None;
        }
        let d: i64 = (c as u32 - '0' as u32) as i64;
        proof {
            assert(body.take(i - start + 1).drop_last() =~= body.take(i - start));
            assert(body.take(i - start + 1).last() == c);
        }
        value = value * 10 + d;
        if value > 0x8000_0000 {
            proof {
                if forall|j: int| 0 <= j < body.len() ==> is_digit(#[trigger] body[j]) {
                    lemma_digits_value_grows(body, i - start + 1);
                }
            }
            return None;
        }
        i = i + 1;
    }
    proof {
        assert(body.take(i - start) =~= body);
    }
    if negative {
        Some((-value) as i32)
    } else if value == 0x8000_0000 {
        None
    } else {
        Some(value as i32)
    }
}

/// How many double quotes stand at the front of a text.
pub open spec fn leading_quotes(text: Seq<char>) -> nat
    decreases text.len(),
{
    if text.len() > 0 && text.first() == '"' {
        1 + leading_quotes(text.drop_first())
    } else {
        0
    }
}

/// How many double quotes stand at the end of a text.
pub open spec fn trailing_quotes(text: Seq<char>) -> nat
    decreases text.len(),
{
    if text.len() > 0 && text.last() == '"' {
        1 + trailing_quotes(text.drop_last())
    } else {
        0
    }
}

/// A text without the double quotes at its front and at its end.
pub open spec fn unquoted(text: Seq<char>) -> Seq<char> {
    if leading_quotes(text) == text.len() {
        Seq::empty()
    } else {
        text.subrange(leading_quotes(text) as int, text.len() - trailing_quotes(text))
    }
}

/// The quotes at the front of a text are those of a run of quotes and those
/// behind it.
proof fn lemma_leading_quotes(text: Seq<char>, i: int)
    requires
        0 <= i <= text.len(),
        forall|j: int| 0 <= j < i ==> text[j] == '"',
    ensures
        leading_quotes(text) == i + leading_quotes(text.subrange(i, text.len() as int)),
    decreases i,
{
    if i == 0 {
        assert(text.subrange(0, text.len() as int) =~= text);
    } else {
        let rest = text.drop_first();
        lemma_leading_quotes(rest, i - 1);
        assert(rest.subrange(i - 1, rest.len() as int) =~= text.subrange(i, text.len() as int));
    }
}

/// The quotes at the end of a text are those of a run of quotes and those in
/// front of it.
proof fn lemma_trailing_quotes(text: Seq<char>, i: int)
    requires
        0 <= i <= text.len(),
        forall|j: int| i <= j < text.len() ==> text[j] == '"',
    ensures
        trailing_quotes(text) == text.len() - i + trailing_quotes(text.take(i)),
    decreases text.len() - i,
{
    if i == text.len() {
        assert(text.take(i) =~= text);
    } else {
        let rest = text.drop_last();
        lemma_trailing_quotes(rest, i);
        assert(rest.take(i) =~= text.take(i));
    }
}

/// Takes the double quotes off the front and the end of a text.
pub fn unquote(text: &str) -> (r: String)
    ensures
        r@ == unquoted(text@),
{
    let len = text.unicode_len();
    let mut from: usize = 0;
    while from < len && text.get_char(from) == '"'
        invariant
            from <= len,
            len == text@.len(),
            forall|j: int| 0 <= j < from ==> text@[j] == '"',
        decreases len - from,
    {
        from = from + 1;
    }
    proof {
        lemma_leading_quotes(text@, from as int);
    }
    if from == len {
        proof {
            assert(text@.subrange(from as int, len as int) =~= Seq::<char>::empty());
        }
        return String::new();
    }
    let mut to: usize = len;
    while to > from && text.get_char(to - 1) == '"'
        invariant
            from < len,
            from <= to <= len,
            len == text@.len(),
            text@[from as int] != '"',
            forall|j: int| to <= j < len ==> text@[j] == '"',
        decreases to,
    {
        to = to - 1;
    }
    proof {
        assert(text@.subrange(from as int, len as int).first() == text@[from as int]);
        lemma_trailing_quotes(text@, to as int);
        assert(to > from);
        assert(text@.take(to as int).last() == text@[to - 1]);
    }
    text.substring_char(from, to).to_owned()
}

/// The command that a node stands for, or the fault that it holds.
///
/// A number literal must be a 32-bit signed integer. A conditional has one or
/// two branches. Commands are looked at in order, and the first fault found
/// is the one reported.
pub open spec fn command_of(node: Node) -> Result<Ast, ParseFault>
    decreases node,
{
    let malformed = Err::<Ast, ParseFault>(
        ParseFault { reason: ParseFaultReason::Malformed, position: node.position as usize },
    );
    match node.kind {
        NodeKind::Number => match number_of(node.text) {
            Some(n) => Ok(Ast::Number(n)),
            None => Err(
                ParseFault {
                    reason: ParseFaultReason::BadNumber,
                    position: node.position as usize,
                },
            ),
        },
        NodeKind::String => Ok(Ast::Text(unquoted(node.text))),
        NodeKind::Identifier => Ok(Ast::Identifier(node.text)),
        NodeKind::True => Ok(Ast::Bool(true)),
        NodeKind::False => Ok(Ast::Bool(false)),
        NodeKind::Add => Ok(Ast::Add),
        NodeKind::Sub => Ok(Ast::Sub),
        NodeKind::Mul => Ok(Ast::Mul),
        NodeKind::Div => Ok(Ast::Div),
        NodeKind::IfBlock => if node.children.len() == 0 || node.children.len() > 2 {
            malformed
        } else {
            match commands_of(node.children[0].children) {
                Err(fault) => Err(fault),
                Ok(then) => if node.children.len() == 1 {
                    Ok(Ast::If(then, Seq::empty()))
                } else {
                    match commands_of(node.children[1].children) {
                        Err(fault) => Err(fault),
                        Ok(otherwise) => Ok(Ast::If(then, otherwise)),
                    }
                },
            }
        },
        NodeKind::WhileBlock => match commands_of(node.children) {
            Err(fault) => Err(fault),
            Ok(body) => Ok(Ast::While(body)),
        },
        _ => malformed,
    }
}

/// The commands that a list of nodes stands for, or the first fault among
/// them.
pub open spec fn commands_of(nodes: Seq<Node>) -> Result<Seq<Ast>, ParseFault>
    decreases nodes,
{
    if nodes.len() == 0 {
        Ok(Seq::empty())
    } else {
        match commands_of(nodes.drop_last()) {
            Err(fault) => Err(fault),
            Ok(front) => match command_of(nodes.last()) {
                Err(fault) => Err(fault),
                Ok(c) => Ok(front.push(c)),
            },
        }
    }
}

/// A fault among the first nodes of a list is the fault of the list.
proof fn lemma_commands_of_fault(nodes: Seq<Node>, i: int)
    requires
        0 <= i <= nodes.len(),
        commands_of(nodes.take(i)) is Err,
    ensures
        commands_of(nodes) == commands_of(nodes.take(i)),
    decreases nodes.len() - i,
{
    if i < nodes.len() {
        assert(nodes.take(i + 1).drop_last() =~= nodes.take(i));
        lemma_commands_of_fault(nodes, i + 1);
    } else {
        assert(nodes.take(i) =~= nodes);
    }
}

/// Builds the commands that the nodes of a list stand for, from the node at
/// `from` on.
pub fn build_commands_from(nodes: &Vec<ParseNode>, from: usize) -> (r: Result<
    Vec<CauchemarAST>,
    ParseFault,
>)
    requires
        from <= nodes@.len(),
    ensures
        match r {
            Ok(cmds) => commands_of(nodes_of(nodes@).skip(from as int)) == Ok::<
                Seq<Ast>,
                ParseFault,
            >(asts_of(cmds@)),
            Err(fault) => commands_of(nodes_of(nodes@).skip(from as int)) == Err::<
                Seq<Ast>,
                ParseFault,
            >(fault),
        },
    decreases nodes, 0nat,
{
    let ghost all = nodes_of(nodes@).skip(from as int);
    let mut cmds: Vec<CauchemarAST> = Vec::new();
    let mut i: usize = from;
    proof {
        lemma_nodes_of(nodes@);
        assert(all.take(0) =~= Seq::<Node>::empty());
    }
    while i < nodes.len()
        invariant
            from <= i <= nodes.len(),
            all == nodes_of(nodes@).skip(from as int),
            all.len() == nodes@.len() - from,
            commands_of(all.take(i - from)) == Ok::<Seq<Ast>, ParseFault>(asts_of(cmds@)),
        decreases nodes.len() - i,
    {
        proof {
            lemma_nodes_of(nodes@);
            assert(all.take(i - from + 1).drop_last() =~= all.take(i - from));
            assert(all.take(i - from + 1).last() == node_of(nodes@[i as int]));
        }
        match build_command(&nodes[i]) {
            Err(fault) => {
                proof {
                    lemma_commands_of_fault(all, i - from + 1);
                }
                return Err(fault);
            },
            Ok(c) => {
                let ghost before = cmds@;
                cmds.push(c);
                proof {
                    assert(cmds@.drop_last() =~= before);
                }
            },
        }
        i = i + 1;
    }
    proof {
        assert(all.take(i - from) =~= all);
    }
    Ok(cmds)
}

/// Builds the commands that a list of nodes stands for.
pub fn build_commands(nodes: &Vec<ParseNode>) -> (r: Result<Vec<CauchemarAST>, ParseFault>)
    ensures
        match r {
            Ok(cmds) => commands_of(nodes_of(nodes@)) == Ok::<Seq<Ast>, ParseFault>(
                asts_of(cmds@),
            ),
            Err(fault) => commands_of(nodes_of(nodes@)) == Err::<Seq<Ast>, ParseFault>(fault),
        },
    decreases nodes, 1nat,
{
    proof {
        assert(nodes_of(nodes@).skip(0) =~= nodes_of(nodes@));
    }
    build_commands_from(nodes, 0)
}

/// The fault of a node whose shape no source gives.
fn malformed(node: &ParseNode) -> (r: ParseFault)
    ensures
        r == (ParseFault {
            reason: ParseFaultReason::Malformed,
            position: node@.position as usize,
        }),
{
    ParseFault { reason: ParseFaultReason::Malformed, position: node.position }
}

/// Builds the command that a node stands for.
pub fn build_command(node: &ParseNode) -> (r: Result<CauchemarAST, ParseFault>)
    ensures
        match r {
            Ok(c) => command_of(node@) == Ok::<Ast, ParseFault>(c@),
            Err(fault) => command_of(node@) == Err::<Ast, ParseFault>(fault),
        },
    decreases node, 0nat,
{
    proof {
        lemma_nodes_of(node.children@);
    }
    match node.kind {
        NodeKind::Number => match read_number(node.text.as_str()) {
            Some(n) => Ok(CauchemarAST::Number(n)),
            None => Err(
                ParseFault { reason: ParseFaultReason::BadNumber, position: node.position },
            ),
        },
        NodeKind::String => Ok(CauchemarAST::String(unquote(node.text.as_str()))),
        NodeKind::Identifier => Ok(CauchemarAST::Identifier(node.text.clone())),
        NodeKind::True => Ok(CauchemarAST::Bool(true)),
        NodeKind::False => Ok(CauchemarAST::Bool(false)),
        NodeKind::Add => Ok(CauchemarAST::Add),
        NodeKind::Sub => Ok(CauchemarAST::Sub),
        NodeKind::Mul => Ok(CauchemarAST::Mul),
        NodeKind::Div => Ok(CauchemarAST::Div),
        NodeKind::IfBlock => {
            if node.children.len() == 0 || node.children.len() > 2 {
                return Err(malformed(node));
            }
            let then = match build_commands(&node.children[0].children) {
                Ok(cmds) => cmds,
                Err(fault) => {
                    return Err(fault);
                },
            };
            let otherwise = if node.children.len() == 1 {
                Vec::new()
            } else {
                match build_commands(&node.children[1].children) {
                    Ok(cmds) => cmds,
                    Err(fault) => {
                        return Err(fault);
                    },
                }
            };
            Ok(CauchemarAST::If(then, otherwise))
        },
        NodeKind::WhileBlock => match build_commands(&node.children) {
            Ok(body) => Ok(CauchemarAST::While(body)),
            Err(fault) => Err(fault),
        },
        _ => Err(malformed(node)),
    }
}

/// The routines that a list of nodes under the root stands for, by name, or
/// the first fault among them.
///
/// Each routine binds the text of its first child to the commands of its
/// other children, in place of an earlier routine of that name. The end of
/// input stands for nothing; any other node is a fault.
pub open spec fn routines_of(nodes: Seq<Node>) -> Result<Map<Seq<char>, Seq<Ast>>, ParseFault>
    decreases nodes.len(),
{
    if nodes.len() == 0 {
        Ok(Map::empty())
    } else {
        let node = nodes.last();
        let malformed = Err::<Map<Seq<char>, Seq<Ast>>, ParseFault>(
            ParseFault { reason: ParseFaultReason::Malformed, position: node.position as usize },
        );
        match routines_of(nodes.drop_last()) {
            Err(fault) => Err(fault),
            Ok(front) => match node.kind {
                NodeKind::Routine => if node.children.len() == 0 {
                    malformed
                } else {
                    match commands_of(node.children.skip(1)) {
                        Err(fault) => Err(fault),
                        Ok(cmds) => Ok(front.insert(node.children[0].text, cmds)),
                    }
                },
                NodeKind::EndOfInput => Ok(front),
                _ => malformed,
            },
        }
    }
}

/// The program that a parse tree stands for, or the first fault in it. The
/// root must be a program node.
pub open spec fn program_of(root: Node) -> Result<Map<Seq<char>, Seq<Ast>>, ParseFault> {
    if root.kind == NodeKind::Program {
        routines_of(root.children)
    } else {
        Err(ParseFault { reason: ParseFaultReason::Malformed, position: root.position as usize })
    }
}

/// A fault among the first nodes under the root is the fault of them all.
proof fn lemma_routines_of_fault(nodes: Seq<Node>, i: int)
    requires
        0 <= i <= nodes.len(),
        routines_of(nodes.take(i)) is Err,
    ensures
        routines_of(nodes) == routines_of(nodes.take(i)),
    decreases nodes.len() - i,
{
    if i < nodes.len() {
        assert(nodes.take(i + 1).drop_last() =~= nodes.take(i));
        lemma_routines_of_fault(nodes, i + 1);
    } else {
        assert(nodes.take(i) =~= nodes);
    }
}

/// Builds the program that a parse tree stands for.
pub fn build_program(root: &ParseNode) -> (r: Result<CauchemarProgram, ParseFault>)
    ensures
        match r {
            Ok(program) => program_of(root@) == Ok::<Map<Seq<char>, Seq<Ast>>, ParseFault>(
                program@,
            ),
            Err(fault) => program_of(root@) == Err::<Map<Seq<char>, Seq<Ast>>, ParseFault>(
                fault,
            ),
        },
{
    if root.kind != NodeKind::Program {
        return Err(malformed(root));
    }
    let ghost all = nodes_of(root.children@);
    let ghost body = |b: Vec<CauchemarAST>| asts_of(b@);
    let mut routines: NameTable<Vec<CauchemarAST>> = NameTable::new();
    let mut i: usize = 0;
    proof {
        lemma_nodes_of(root.children@);
        assert(all.take(0) =~= Seq::<Node>::empty());
        assert(routines.map().map_values(body) =~= Map::<Seq<char>, Seq<Ast>>::empty());
    }
    while i < root.children.len()
        invariant
            0 <= i <= root.children.len(),
            root.kind == NodeKind::Program,
            all == nodes_of(root.children@),
            all.len() == root.children@.len(),
            body == |b: Vec<CauchemarAST>| asts_of(b@),
            routines_of(all.take(i as int)) == Ok::<Map<Seq<char>, Seq<Ast>>, ParseFault>(
                routines.map().map_values(body),
            ),
        decreases root.children.len() - i,
    {
        let routine = &root.children[i];
        proof {
            lemma_nodes_of(root.children@);
            lemma_nodes_of(routine.children@);
            assert(all.take(i + 1).drop_last() =~= all.take(i as int));
            assert(all.take(i + 1).last() == node_of(root.children@[i as int]));
        }
        match routine.kind {
            NodeKind::Routine => {
                if routine.children.len() == 0 {
                    proof {
                        lemma_routines_of_fault(all, i + 1);
                    }
                    return Err(malformed(routine));
                }
                match build_commands_from(&routine.children, 1) {
                    Err(fault) => {
                        proof {
                            lemma_routines_of_fault(all, i + 1);
                        }
                        return Err(fault);
                    },
                    Ok(cmds) => {
                        let ghost before = routines.map();
                        let name = routine.children[0].text.clone();
                        proof {
                            assert(before.insert(name@, cmds).map_values(body)
                                =~= before.map_values(body).insert(name@, asts_of(cmds@)));
                        }
                        routines.insert(name, cmds);
                    },
                }
            },
            NodeKind::EndOfInput => {},
            _ => {
                proof {
                    lemma_routines_of_fault(all, i + 1);
                }
                return Err(malformed(routine));
            },
        }
        i = i + 1;
    }
    proof {
        assert(all.take(i as int) =~= all);
    }
    Ok(CauchemarProgram { routines })
}

} // verus!
