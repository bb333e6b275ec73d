use cauchemar::ast::CauchemarAST;
use cauchemar::tree::{
    build_command, build_commands, build_commands_from, build_program, read_number, unquote,
    NodeKind, ParseFault, ParseFaultReason, ParseNode,
};

fn leaf(kind: NodeKind, text: &str, position: usize) -> ParseNode {
    ParseNode { kind, text: text.to_string(), position, children: vec![] }
}

fn branch(kind: NodeKind, position: usize, children: Vec<ParseNode>) -> ParseNode {
    ParseNode { kind, text: String::new(), position, children }
}

fn malformed(position: usize) -> ParseFault {
    ParseFault { reason: ParseFaultReason::Malformed, position }
}

#[test]
fn number_literals_are_read() {
    assert_eq!(read_number("0"), Some(0));
    assert_eq!(read_number("42"), Some(42));
    assert_eq!(read_number("-42"), Some(-42));
    assert_eq!(read_number("+42"), Some(42));
    assert_eq!(read_number("007"), Some(7));
    assert_eq!(read_number("-0"), Some(0));
    assert_eq!(read_number("2147483647"), Some(i32::MAX));
    assert_eq!(read_number("-2147483648"), Some(i32::MIN));
    assert_eq!(read_number("0000000000002147483647"), Some(i32::MAX));
}

#[test]
fn what_is_no_number_is_not_read() {
    assert_eq!(read_number(""), None);
    assert_eq!(read_number("-"), None);
    assert_eq!(read_number("+"), None);
    assert_eq!(read_number("12a"), None);
    assert_eq!(read_number("1 2"), None);
    assert_eq!(read_number("--1"), None);
    assert_eq!(read_number("1-"), None);
    assert_eq!(read_number("\u{0663}"), None);
    assert_eq!(read_number("2147483648"), None);
    assert_eq!(read_number("-2147483649"), None);
    assert_eq!(read_number("99999999999999999999999999"), None);
}

#[test]
fn numbers_read_as_the_standard_library_reads_them() {
    for text in ["5", "-5", "+5", "", "-", "05", "2147483648", "-2147483648", "x", "1e3", " 1"] {
        assert_eq!(read_number(text), text.parse::<i32>().ok(), "{:?}", text);
    }
}

#[test]
fn printed_numbers_read_back() {
    for n in [0, 1, -1, 9, 10, -10, 123456, i32::MAX, i32::MIN] {
        let text = cauchemar::value::CauchemarVMValue::Number(n).to_text();
        assert_eq!(read_number(&text), Some(n));
    }
}

#[test]
fn quotes_are_taken_off_both_ends() {
    assert_eq!(unquote("\"hello\""), "hello");
    assert_eq!(unquote("\"\""), "");
    assert_eq!(unquote(""), "");
    assert_eq!(unquote("plain"), "plain");
    assert_eq!(unquote("\"\"two\"\"\""), "two");
    assert_eq!(unquote("\"in\"side\""), "in\"side");
    assert_eq!(unquote("\"open"), "open");
    assert_eq!(unquote("\"\u{e9}t\u{e9}\""), "\u{e9}t\u{e9}");
    for text in ["\"a\"", "\"", "a\"b", "\"\"\"", "\" \""] {
        assert_eq!(unquote(text), text.trim_matches('"'), "{:?}", text);
    }
}

#[test]
fn leaves_become_commands() {
    let cases = vec![
        (leaf(NodeKind::Number, "-12", 0), CauchemarAST::Number(-12)),
        (leaf(NodeKind::String, "\"a b\"", 0), CauchemarAST::String("a b".to_string())),
        (leaf(NodeKind::Identifier, "DUP", 0), CauchemarAST::Identifier("DUP".to_string())),
        (leaf(NodeKind::True, "TRUE", 0), CauchemarAST::Bool(true)),
        (leaf(NodeKind::False, "FALSE", 0), CauchemarAST::Bool(false)),
        (leaf(NodeKind::Add, "+", 0), CauchemarAST::Add),
        (leaf(NodeKind::Sub, "-", 0), CauchemarAST::Sub),
        (leaf(NodeKind::Mul, "*", 0), CauchemarAST::Mul),
        (leaf(NodeKind::Div, "/", 0), CauchemarAST::Div),
    ];
    for (node, expected) in cases {
        assert_eq!(build_command(&node), Ok(expected));
    }
}

#[test]
fn conditionals_and_loops_become_commands() {
    let then = branch(NodeKind::Branch, 3, vec![leaf(NodeKind::Number, "1", 3)]);
    let otherwise = branch(NodeKind::Branch, 10, vec![leaf(NodeKind::Number, "2", 10)]);
    let one_armed = branch(NodeKind::IfBlock, 0, vec![branch(NodeKind::Branch, 3, vec![])]);
    assert_eq!(build_command(&one_armed), Ok(CauchemarAST::If(vec![], vec![])));
    let two_armed = branch(NodeKind::IfBlock, 0, vec![then, otherwise]);
    assert_eq!(
        build_command(&two_armed),
        Ok(CauchemarAST::If(vec![CauchemarAST::Number(1)], vec![CauchemarAST::Number(2)]))
    );
    let repeat = branch(
        NodeKind::WhileBlock,
        0,
        vec![two_armed, leaf(NodeKind::False, "FALSE", 20)],
    );
    assert_eq!(
        build_command(&repeat),
        Ok(CauchemarAST::While(vec![
            CauchemarAST::If(vec![CauchemarAST::Number(1)], vec![CauchemarAST::Number(2)]),
            CauchemarAST::Bool(false),
        ]))
    );
}

#[test]
fn faults_carry_the_position_of_their_node() {
    assert_eq!(
        build_command(&leaf(NodeKind::Number, "99999999999", 17)),
        Err(ParseFault { reason: ParseFaultReason::BadNumber, position: 17 })
    );
    assert_eq!(build_command(&branch(NodeKind::IfBlock, 5, vec![])), Err(malformed(5)));
    let three = vec![
        branch(NodeKind::Branch, 1, vec![]),
        branch(NodeKind::Branch, 2, vec![]),
        branch(NodeKind::Branch, 3, vec![]),
    ];
    assert_eq!(build_command(&branch(NodeKind::IfBlock, 6, three)), Err(malformed(6)));
    assert_eq!(build_command(&leaf(NodeKind::Routine, "", 7)), Err(malformed(7)));
    assert_eq!(build_command(&leaf(NodeKind::Program, "", 8)), Err(malformed(8)));
    assert_eq!(build_command(&leaf(NodeKind::Branch, "", 9)), Err(malformed(9)));
    assert_eq!(build_command(&leaf(NodeKind::EndOfInput, "", 10)), Err(malformed(10)));
}

#[test]
fn first_fault_in_a_list_is_reported() {
    let nodes = vec![
        leaf(NodeKind::Number, "1", 0),
        leaf(NodeKind::Number, "x", 2),
        leaf(NodeKind::Program, "", 4),
    ];
    assert_eq!(
        build_commands(&nodes),
        Err(ParseFault { reason: ParseFaultReason::BadNumber, position: 2 })
    );
    assert_eq!(build_commands_from(&nodes, 2), Err(malformed(4)));
    assert_eq!(build_commands_from(&nodes, 3), Ok(vec![]));
    let nested = vec![branch(
        NodeKind::WhileBlock,
        0,
        vec![branch(
            NodeKind::IfBlock,
            3,
            vec![
                branch(NodeKind::Branch, 6, vec![]),
                branch(NodeKind::Branch, 9, vec![leaf(NodeKind::Number, "1e9", 11)]),
            ],
        )],
    )];
    assert_eq!(
        build_commands(&nested),
        Err(ParseFault { reason: ParseFaultReason::BadNumber, position: 11 })
    );
}

#[test]
fn tree_becomes_a_program() {
    let root = branch(
        NodeKind::Program,
        0,
        vec![
            branch(
                NodeKind::Routine,
                0,
                vec![
                    leaf(NodeKind::Identifier, "PROGRAM", 0),
                    leaf(NodeKind::Number, "1", 9),
                    leaf(NodeKind::Identifier, "PRINT", 11),
                ],
            ),
            branch(NodeKind::Routine, 20, vec![leaf(NodeKind::Identifier, "EMPTY", 20)]),
            branch(
                NodeKind::Routine,
                30,
                vec![leaf(NodeKind::Identifier, "PROGRAM", 30), leaf(NodeKind::Number, "2", 39)],
            ),
            leaf(NodeKind::EndOfInput, "", 45),
        ],
    );
    let program = build_program(&root).unwrap();
    assert_eq!(
        program.routines.get(&"PROGRAM".to_string()),
        Some(&vec![CauchemarAST::Number(2)])
    );
    assert_eq!(program.routines.get(&"EMPTY".to_string()), Some(&vec![]));
    assert_eq!(program.routines.get(&"PRINT".to_string()), None);
    assert_eq!(program.routines.entries.len(), 3);
    assert_eq!(
        program.routines.entries[0],
        (
            "PROGRAM".to_string(),
            vec![CauchemarAST::Number(1), CauchemarAST::Identifier("PRINT".to_string())]
        )
    );
}

#[test]
fn tree_of_the_wrong_shape_is_no_program() {
    assert_eq!(build_program(&leaf(NodeKind::Routine, "", 3)), Err(malformed(3)));
    let nameless = branch(NodeKind::Program, 0, vec![branch(NodeKind::Routine, 4, vec![])]);
    assert_eq!(build_program(&nameless), Err(malformed(4)));
    let stray = branch(NodeKind::Program, 0, vec![leaf(NodeKind::Number, "1", 6)]);
    assert_eq!(build_program(&stray), Err(malformed(6)));
    let bad = branch(
        NodeKind::Program,
        0,
        vec![
            branch(
                NodeKind::Routine,
                0,
                vec![leaf(NodeKind::Identifier, "A", 0), leaf(NodeKind::Number, "4294967296", 2)],
            ),
            leaf(NodeKind::Number, "1", 20),
        ],
    );
    assert_eq!(
        build_program(&bad),
        Err(ParseFault { reason: ParseFaultReason::BadNumber, position: 2 })
    );
    assert_eq!(build_program(&branch(NodeKind::Program, 0, vec![])).unwrap().routines.entries.len(), 0);
}
