use std::collections::VecDeque;

use takolib::ast::{Info, Node};
use takolib::errors::{ParseFault, TError};
use takolib::externs::{get_externs, operator, Direction, ExternTable, LangImpl, Semantic};
use takolib::location::Loc;
use takolib::parser::{
    binding, binding_dir, binding_power, expr, get_defs, led, nud, operation, parse,
    parse_number,
};
use takolib::interpreter::{find_in_frame, find_symbol};
use takolib::primitives::{int32, Prim};
use takolib::tokens::{chars_of, classify_char, lex_string, Token, TokenType};

fn token(tok_type: TokenType, value: &str) -> Token {
    Token { tok_type, value: value.to_string(), pos: Loc::default() }
}

fn tokens(text: &str) -> VecDeque<Token> {
    lex_string("test.tk", text)
}

fn values(toks: &VecDeque<Token>) -> Vec<&str> {
    toks.iter().map(|t| t.value.as_str()).collect()
}

// Places.

#[test]
fn places_start_at_line_one_column_one() {
    let start = Loc::default();
    assert_eq!((start.filename.clone(), start.line, start.col), (None, 1, 1));
    let info = start.clone().get_info();
    assert_eq!(info.loc, Some(start));
    assert_eq!(info.ty, None);
    assert_eq!(info.defined_at, None);
    let tok = Token { tok_type: TokenType::Sym, value: "x".to_string(), pos: Loc { filename: None, line: 3, col: 4 } };
    assert_eq!(tok.get_info().loc, Some(Loc { filename: None, line: 3, col: 4 }));
}

#[test]
fn next_moves_past_one_character() {
    let chars = chars_of("ab\r\nc\n\rd");
    let mut pos = Loc::default();
    let mut seen = vec![];
    let mut i = 0;
    while i < chars.len() {
        i = pos.next(&chars, i);
        seen.push((i, pos.line, pos.col));
    }
    assert_eq!(
        seen,
        vec![(1, 1, 2), (2, 1, 3), (4, 2, 1), (5, 2, 2), (6, 3, 1), (7, 4, 1), (8, 4, 2)]
    );
    assert_eq!(pos.next(&chars, 8), 8);
    assert_eq!((pos.line, pos.col), (4, 2));
}

// Classes of characters.

#[test]
fn characters_have_classes() {
    assert_eq!(classify_char(' '), TokenType::Whitespace);
    assert_eq!(classify_char('\n'), TokenType::Whitespace);
    assert_eq!(classify_char('+'), TokenType::Op);
    assert_eq!(classify_char(';'), TokenType::Op);
    assert_eq!(classify_char('('), TokenType::OpenBracket);
    assert_eq!(classify_char('}'), TokenType::CloseBracket);
    assert_eq!(classify_char('7'), TokenType::NumLit);
    assert_eq!(classify_char('"'), TokenType::StringLit);
    assert_eq!(classify_char('x'), TokenType::Sym);
    assert_eq!(classify_char('_'), TokenType::Sym);
    assert_eq!(chars_of("añb"), vec!['a', 'ñ', 'b']);
}

#[test]
fn numbers_are_read_digit_by_digit() {
    assert_eq!(parse_number(&"0".to_string()), Some(0));
    assert_eq!(parse_number(&"007".to_string()), Some(7));
    assert_eq!(parse_number(&"2147483647".to_string()), Some(i32::MAX));
    assert_eq!(parse_number(&"2147483648".to_string()), None);
    assert_eq!(parse_number(&"99999999999999999999999".to_string()), None);
    assert_eq!(parse_number(&"".to_string()), None);
    assert_eq!(parse_number(&"12a".to_string()), None);
    assert_eq!(parse_number(&"-1".to_string()), None);
}

// The built-ins.

#[test]
fn built_ins_are_found_by_name() {
    let env = get_externs();
    assert_eq!(env.entries.len(), 42);
    assert_eq!(env.semantic(&"+".to_string()), Some(operator(70, Direction::Left)));
    assert_eq!(
        env.semantic(&"^".to_string()),
        Some(Semantic::Operator { binding: 90, assoc: Direction::Right })
    );
    assert_eq!(env.semantic(&"print".to_string()), Some(Semantic::Func));
    assert_eq!(env.semantic(&"nothing".to_string()), None);
    let pow = env.get(&"^".to_string()).expect("no power");
    assert_eq!(pow.cpp.code, "pow");
    assert_eq!(pow.cpp.arg_joiner, ", ");
    assert_eq!(pow.cpp.includes, "#include <cmath>");
    assert_eq!(pow.cpp.flags, vec!["-lm".to_string()]);
    let i32_entry = env.get(&"I32".to_string()).expect("no I32");
    assert_eq!(i32_entry.value, takolib::primitives::i32_type());
    assert_eq!(i32_entry.ty, takolib::primitives::variable("Type").into_node());
    assert!(ExternTable::new().get(&"+".to_string()).is_none());
}

#[test]
fn the_first_entry_of_a_name_counts() {
    let mut env = ExternTable::new();
    for power in [10, 20] {
        env.entries.push(takolib::externs::Extern {
            name: "@".to_string(),
            value: takolib::primitives::Prim::BuiltIn("@".to_string()),
            semantic: operator(power, Direction::Left),
            ty: takolib::primitives::variable("Type").into_node(),
            cpp: LangImpl::new("at").with_arg_processor("p").with_flag("-a").with_flag("-b"),
        });
    }
    assert_eq!(env.semantic(&"@".to_string()), Some(operator(10, Direction::Left)));
    let at = env.get(&"@".to_string()).expect("no entry");
    assert_eq!(at.cpp.arg_processor, "p");
    assert_eq!(at.cpp.flags, vec!["-a".to_string(), "-b".to_string()]);
    assert_eq!(LangImpl::operator("+").arg_joiner, "+");
    assert_eq!(LangImpl::operator("+").with_arg_joiner("-").arg_joiner, "-");
    assert_eq!(LangImpl::new("f").with_includes("i").includes, "i");
}

#[test]
fn tokens_bind_as_the_table_says() {
    let env = get_externs();
    assert_eq!(binding_power(&env, &token(TokenType::Op, "*")), Ok(80));
    assert_eq!(binding_dir(&env, &token(TokenType::Op, "=")), Ok(Direction::Right));
    assert_eq!(binding(&env, &token(TokenType::Sym, "x")), Ok(Semantic::Func));
    assert_eq!(binding_power(&env, &token(TokenType::Sym, "x")), Ok(1000));
    assert_eq!(binding_dir(&env, &token(TokenType::NumLit, "7")), Ok(Direction::Left));
    assert_eq!(binding_power(&env, &token(TokenType::CloseBracket, ")")), Ok(1000));
    assert_eq!(
        binding(&env, &token(TokenType::Op, "@@")),
        Err(TError::UnknownInfixOperator("@@".to_string(), Info::default()))
    );
}

// The parts of the parser.

#[test]
fn nud_reads_one_expression() {
    let env = get_externs();
    let (node, rest) = nud(&env, tokens("12 13")).expect("no expression");
    assert_eq!(node, int32(12).into_node());
    assert_eq!(values(&rest), vec!["13"]);
    let (node, rest) = nud(&env, tokens("")).expect("no result");
    assert!(matches!(node, Node::Error(_)));
    assert!(rest.is_empty());
    let (node, rest) = nud(&env, tokens("(1) 2")).expect("no expression");
    assert_eq!(node, int32(1).into_node());
    assert_eq!(values(&rest), vec!["2"]);
}

#[test]
fn led_puts_a_comma_between_expressions() {
    let env = get_externs();
    let (node, rest) = led(&env, tokens("7 8"), int32(1).into_node()).expect("no result");
    assert_eq!(node, int32(1).into_node());
    assert_eq!(values(&rest), vec![",", "7", "8"]);
    assert_eq!(rest[0].tok_type, TokenType::Op);
    assert_eq!(rest[0].pos, rest[1].pos);
}

#[test]
fn led_gives_an_error_node_where_nothing_follows() {
    let env = get_externs();
    let (node, rest) = led(&env, tokens(") 8"), int32(1).into_node()).expect("no result");
    assert!(matches!(node, Node::Error(_)));
    assert_eq!(values(&rest), vec![")", "8"]);
    let (node, rest) = led(&env, tokens(""), int32(1).into_node()).expect("no result");
    assert!(matches!(node, Node::Error(_)));
    assert!(rest.is_empty());
}

#[test]
fn expr_stops_at_weaker_operators() {
    let env = get_externs();
    let (node, rest) = expr(&env, tokens("2*3+4"), 70).expect("no expression");
    assert!(matches!(node, Node::BinOpNode(ref b) if b.name == "*"));
    assert_eq!(values(&rest), vec!["+", "4"]);
    let (node, rest) = expr(&env, tokens("2*3+4"), 80).expect("no expression");
    assert_eq!(node, int32(2).into_node());
    assert_eq!(values(&rest), vec!["*", "3", "+", "4"]);
    let (node, rest) = expr(&env, tokens("2 ) 3"), 0).expect("no expression");
    assert_eq!(node, int32(2).into_node());
    assert_eq!(values(&rest), vec![")", "3"]);
}

#[test]
fn tokens_that_no_lexer_makes_are_refused() {
    let env = get_externs();
    for kind in [TokenType::Unknown, TokenType::Whitespace] {
        let toks: VecDeque<Token> = vec![token(kind, " ")].into();
        assert_eq!(
            parse(&env, toks),
            Err(TError::ParseError(ParseFault::InvalidToken, Info::default()))
        );
        let toks: VecDeque<Token> = vec![token(kind, " ")].into();
        assert_eq!(
            led(&env, toks, int32(1).into_node()).map(|_| ()),
            Err(TError::ParseError(ParseFault::InvalidToken, Info::default()))
        );
    }
    let toks: VecDeque<Token> = vec![token(TokenType::NumLit, "1x")].into();
    assert_eq!(
        parse(&env, toks),
        Err(TError::ParseError(
            ParseFault::InvalidNumber { text: "1x".to_string() },
            Info::default()
        ))
    );
}

#[test]
fn operation_makes_binary_operations_of_other_operators() {
    let made = operation(token(TokenType::Op, "+"), int32(1).into_node(), int32(2).into_node());
    match made {
        Ok(Node::BinOpNode(b)) => {
            assert_eq!(b.name, "+");
            assert_eq!(*b.left, int32(1).into_node());
            assert_eq!(*b.right, int32(2).into_node());
        }
        other => panic!("not a binary operation: {:?}", other),
    }
}

#[test]
fn get_defs_flattens_nested_commas() {
    let env = get_externs();
    let (args, _) = expr(&env, tokens("a, (b, 3), c=1"), 0).expect("no expression");
    let defs = get_defs(args);
    let names: Vec<&str> = defs.iter().map(|d| d.name.as_str()).collect();
    assert_eq!(names, vec!["a", "b", "it", "c"]);
    let single = get_defs(int32(5).into_node());
    assert_eq!(single.len(), 1);
    assert_eq!(single[0].name, "it");
    assert_eq!(*single[0].value, int32(5).into_node());
}

#[test]
fn lex_names_the_file_of_the_module() {
    let module = vec![
        takolib::ast::Symbol::Named("examples".to_string()),
        takolib::ast::Symbol::Named("hello".to_string()),
    ];
    let toks = takolib::tokens::lex(&module, "x = 1");
    assert_eq!(values(&toks), vec!["x", "=", "1"]);
    assert_eq!(toks[2].pos.filename, Some("examples/hello.tk".to_string()));
    assert_eq!((toks[2].pos.line, toks[2].pos.col), (1, 5));
}

// The variables of an evaluator.

#[test]
fn symbols_are_found_in_the_innermost_frame() {
    let x = "x".to_string();
    let y = "y".to_string();
    let outer = vec![("x".to_string(), Prim::I32(1)), ("y".to_string(), Prim::I32(2))];
    let inner = vec![("x".to_string(), Prim::I32(3)), ("x".to_string(), Prim::I32(4))];
    assert_eq!(find_in_frame(&outer, &x), Some(&Prim::I32(1)));
    assert_eq!(find_in_frame(&inner, &x), Some(&Prim::I32(4)));
    assert_eq!(find_in_frame(&inner, &y), None);
    let state = vec![outer, inner, vec![]];
    assert_eq!(find_symbol(&state, &x), Some(&Prim::I32(4)));
    assert_eq!(find_symbol(&state, &y), Some(&Prim::I32(2)));
    assert_eq!(find_symbol(&state, &"z".to_string()), None);
    assert_eq!(find_symbol(&vec![], &x), None);
}
