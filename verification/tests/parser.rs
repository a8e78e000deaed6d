use takolib::ast::{Apply, BinOp, Info, Let, Node, Sym, UnOp};
use takolib::errors::{ParseFault, TError};
use takolib::externs::{get_externs, Direction, Extern, ExternTable, LangImpl, Semantic};
use takolib::parser::{parse_string, text_is};
use takolib::primitives::{int32, string, variable, Prim};
use takolib::tokens::{lex_string, TokenType};

fn parse(contents: String) -> Node {
    let env = get_externs();
    parse_string(&env, "test.tk", &contents).expect("failed to parse string")
}

fn parse_error(contents: &str) -> TError {
    let env = get_externs();
    parse_string(&env, "test.tk", contents).expect_err("parsed")
}

fn num_lit(x: i32) -> Box<Node> {
    Box::new(int32(x).into_node())
}

fn str_lit(x: &str) -> Box<Node> {
    Box::new(string(x).into_node())
}

fn sym(name: &str) -> Node {
    Sym::new(name.to_string()).into_node()
}

#[test]
fn parse_num() {
    assert_eq!(parse("12".to_string()), int32(12).into_node());
}

#[test]
fn parse_str() {
    assert_eq!(
        parse("\"hello world\"".to_string()),
        string("hello world").into_node()
    );
}

#[test]
fn parse_un_op() {
    assert_eq!(
        parse("-12".to_string()),
        UnOp {
            name: "-".to_string(),
            inner: Box::new(int32(12).into_node()),
            info: Info::default()
        }
        .into_node()
    );
}

#[test]
fn parse_min_op() {
    assert_eq!(
        parse("14-12".to_string()),
        BinOp {
            name: "-".to_string(),
            left: num_lit(14),
            right: num_lit(12),
            info: Info::default()
        }
        .into_node()
    );
}

#[test]
fn parse_mul_op() {
    assert_eq!(
        parse("14*12".to_string()),
        BinOp {
            name: "*".to_string(),
            left: num_lit(14),
            right: num_lit(12),
            info: Info::default()
        }
        .into_node()
    );
}

#[test]
fn parse_add_mul_precedence() {
    assert_eq!(
        parse("3+2*4".to_string()),
        BinOp {
            name: "+".to_string(),
            left: num_lit(3),
            right: Box::new(
                BinOp {
                    name: "*".to_string(),
                    left: num_lit(2),
                    right: num_lit(4),
                    info: Info::default()
                }
                .into_node()
            ),
            info: Info::default()
        }
        .into_node()
    );
}

#[test]
fn parse_mul_add_precedence() {
    assert_eq!(
        parse("3*2+4".to_string()),
        BinOp {
            name: "+".to_string(),
            left: Box::new(
                BinOp {
                    name: "*".to_string(),
                    left: num_lit(3),
                    right: num_lit(2),
                    info: Info::default()
                }
                .into_node()
            ),
            right: num_lit(4),
            info: Info::default()
        }
        .into_node()
    );
}

#[test]
fn parse_mul_add_parens() {
    assert_eq!(
        parse("3*(2+4)".to_string()),
        BinOp {
            name: "*".to_string(),
            left: num_lit(3),
            right: Box::new(
                BinOp {
                    name: "+".to_string(),
                    left: num_lit(2),
                    right: num_lit(4),
                    info: Info::default()
                }
                .into_node()
            ),
            info: Info::default()
        }
        .into_node()
    );
}

#[test]
fn parse_add_str() {
    assert_eq!(
        parse("\"hello\"+\" world\"".to_string()),
        BinOp {
            name: "+".to_string(),
            left: str_lit("hello"),
            right: str_lit(" world"),
            info: Info::default()
        }
        .into_node()
    );
}

#[test]
fn parse_strings_followed_by_raw_values() {
    assert_eq!(
        parse("\"hello world\"\n7".to_string()),
        BinOp {
            name: ",".to_string(),
            left: Box::new(*str_lit("hello world")),
            right: num_lit(7),
            info: Info::default()
        }
        .into_node()
    );
}

#[test]
fn parse_strings_with_operators_and_trailing_values_in_let() {
    assert_eq!(
        parse("x()= !\"hello world\";\n7".to_string()),
        BinOp {
            name: ";".to_string(),
            left: Box::new(
                Let {
                    name: "x".to_string(),
                    args: Some(vec![]),
                    value: Box::new(
                        UnOp {
                            name: "!".to_string(),
                            inner: str_lit("hello world"),
                            info: Info::default(),
                        }
                        .into_node()
                    ),
                    info: Info::default(),
                }
                .into_node()
            ),
            right: num_lit(7),
            info: Info::default()
        }
        .into_node()
    );
}

// Rewrites of operators with a meaning of their own.

#[test]
fn assignment_makes_a_binding() {
    assert_eq!(
        parse("x=3;x".to_string()),
        BinOp {
            name: ";".to_string(),
            left: Box::new(
                Let {
                    name: "x".to_string(),
                    args: None,
                    value: num_lit(3),
                    info: Info::default(),
                }
                .into_node()
            ),
            right: Box::new(sym("x")),
            info: Info::default()
        }
        .into_node()
    );
}

#[test]
fn assignment_to_an_application_makes_a_function() {
    let it = Sym::new("it".to_string());
    assert_eq!(
        parse("x(it)=it*2;x(3)".to_string()),
        BinOp {
            name: ";".to_string(),
            left: Box::new(
                Let {
                    name: "x".to_string(),
                    args: Some(vec![it.clone().as_let()]),
                    value: Box::new(
                        BinOp {
                            name: "*".to_string(),
                            left: Box::new(it.into_node()),
                            right: num_lit(2),
                            info: Info::default()
                        }
                        .into_node()
                    ),
                    info: Info::default(),
                }
                .into_node()
            ),
            right: Box::new(
                Apply {
                    inner: Box::new(sym("x")),
                    args: vec![Let {
                        name: "it".to_string(),
                        args: None,
                        value: num_lit(3),
                        info: Info::default(),
                    }],
                    info: Info::default()
                }
                .into_node()
            ),
            info: Info::default()
        }
        .into_node()
    );
}

#[test]
fn colon_gives_the_left_side_a_type() {
    // The built-ins hold no `:`; a language that has it adds it.
    let mut env = get_externs();
    env.entries.push(Extern {
        name: ":".to_string(),
        value: Prim::BuiltIn(":".to_string()),
        semantic: Semantic::Operator { binding: 35, assoc: Direction::Left },
        ty: variable("Type").into_node(),
        cpp: LangImpl::operator(":"),
    });
    let typed = parse_string(&env, "test.tk", "x:I32").expect("failed to parse string");
    assert_eq!(typed, sym("x"));
    match typed.get_info().ty {
        Some(ty) => match *ty {
            Node::SymNode(name) => assert_eq!(name.name, "I32"),
            other => panic!("wrong type: {:?}", other),
        },
        None => panic!("no type"),
    }
    assert_eq!(
        parse_error("x:I32"),
        TError::UnknownInfixOperator(":".to_string(), Info::default())
    );
}

#[test]
fn abstraction_binds_a_bare_name() {
    match parse("x|-x+1".to_string()) {
        Node::AbsNode(abs) => {
            assert_eq!(abs.name, "x");
            assert!(matches!(*abs.value, Node::BinOpNode(_)));
        }
        other => panic!("not an abstraction: {:?}", other),
    }
    assert!(matches!(
        parse_error("3|-x"),
        TError::ParseError(ParseFault::CannotAbstractOver(_), _)
    ));
}

#[test]
fn assignment_needs_a_name_on_the_left() {
    assert!(matches!(
        parse_error("3=x"),
        TError::ParseError(ParseFault::CannotAssignTo(_), _)
    ));
    assert!(matches!(
        parse_error("3(y)=x"),
        TError::ParseError(ParseFault::CannotAssignTo(_), _)
    ));
}

#[test]
fn power_groups_to_the_right() {
    assert_eq!(
        parse("2^3^2".to_string()),
        BinOp {
            name: "^".to_string(),
            left: num_lit(2),
            right: Box::new(
                BinOp {
                    name: "^".to_string(),
                    left: num_lit(3),
                    right: num_lit(2),
                    info: Info::default()
                }
                .into_node()
            ),
            info: Info::default()
        }
        .into_node()
    );
    assert_eq!(
        parse("2-3-2".to_string()),
        BinOp {
            name: "-".to_string(),
            left: Box::new(
                BinOp {
                    name: "-".to_string(),
                    left: num_lit(2),
                    right: num_lit(3),
                    info: Info::default()
                }
                .into_node()
            ),
            right: num_lit(2),
            info: Info::default()
        }
        .into_node()
    );
}

#[test]
fn booleans_are_literals() {
    assert_eq!(parse("true".to_string()), Prim::Bool(true).into_node());
    assert_eq!(parse("false".to_string()), Prim::Bool(false).into_node());
}

#[test]
fn argument_lists_are_split_at_commas() {
    match parse("f(x, y=2, 3)".to_string()) {
        Node::ApplyNode(apply) => {
            assert_eq!(*apply.inner, sym("f"));
            let names: Vec<&str> = apply.args.iter().map(|a| a.name.as_str()).collect();
            assert_eq!(names, vec!["x", "y", "it"]);
            assert_eq!(*apply.args[0].value, sym("x"));
            assert_eq!(*apply.args[1].value, *num_lit(2));
            assert_eq!(*apply.args[2].value, *num_lit(3));
        }
        other => panic!("not an application: {:?}", other),
    }
    for text in ["f()", "f[]", "f{}"] {
        match parse(text.to_string()) {
            Node::ApplyNode(apply) => assert!(apply.args.is_empty()),
            other => panic!("not an application: {:?}", other),
        }
    }
    match parse_error("f(]") {
        TError::ParseError(ParseFault::UnexpectedCloseBracket { found }, _) => {
            assert_eq!(found, "]")
        }
        other => panic!("wrong error: {:?}", other),
    }
}

// Errors.

#[test]
fn malformed_brackets_are_parse_errors() {
    assert!(matches!(
        parse_error("(1+2"),
        TError::ParseError(ParseFault::UnclosedBracket { .. }, _)
    ));
    match parse_error("(1+2]") {
        TError::ParseError(ParseFault::MismatchedBracket { open, found }, _) => {
            assert_eq!(open, "(");
            assert_eq!(found, "]");
        }
        other => panic!("wrong error: {:?}", other),
    }
    assert!(matches!(
        parse_error("f(1+2"),
        TError::ParseError(ParseFault::UnclosedBracket { .. }, _)
    ));
    assert!(matches!(
        parse_error("f(1+2}"),
        TError::ParseError(ParseFault::MismatchedBracket { .. }, _)
    ));
    match parse_error(")") {
        TError::ParseError(ParseFault::UnexpectedCloseBracket { found }, _) => {
            assert_eq!(found, ")")
        }
        other => panic!("wrong error: {:?}", other),
    }
}

#[test]
fn left_over_tokens_are_a_parse_error() {
    match parse_error("1)2") {
        TError::ParseError(ParseFault::LeftOverTokens(rest), info) => {
            assert_eq!(rest.len(), 2);
            assert_eq!(rest[0].value, ")");
            assert_eq!(rest[0].tok_type, TokenType::CloseBracket);
            assert_eq!(info.loc.map(|l| (l.line, l.col)), Some((1, 2)));
        }
        other => panic!("wrong error: {:?}", other),
    }
}

#[test]
fn unknown_operators_are_errors() {
    assert_eq!(
        parse_error("1 @@ 2"),
        TError::UnknownInfixOperator("@@".to_string(), Info::default())
    );
    assert_eq!(
        parse_error("@@ 2"),
        TError::UnknownPrefixOperator("@@".to_string(), Info::default())
    );
}

#[test]
fn numbers_that_do_not_fit_are_errors() {
    assert_eq!(parse("2147483647".to_string()), int32(i32::MAX).into_node());
    assert!(matches!(
        parse_error("2147483648"),
        TError::ParseError(ParseFault::InvalidNumber { .. }, _)
    ));
}

#[test]
fn empty_input_is_an_error_node() {
    assert!(matches!(parse("".to_string()), Node::Error(_)));
}

#[test]
fn an_empty_table_knows_no_operator() {
    let env = ExternTable::new();
    assert_eq!(
        parse_string(&env, "test.tk", "1+2"),
        Err(TError::UnknownInfixOperator("+".to_string(), Info::default()))
    );
    assert_eq!(
        parse_string(&env, "test.tk", "f(1)").map(|n| matches!(n, Node::ApplyNode(_))),
        Ok(true)
    );
}

// The lexer.

#[test]
fn lexer_classes_and_places() {
    let toks = lex_string("test.tk", "ab1 12 +=\r\n(\"a b\")");
    let seen: Vec<(TokenType, &str, i32, i32)> = toks
        .iter()
        .map(|t| (t.tok_type, t.value.as_str(), t.pos.line, t.pos.col))
        .collect();
    assert_eq!(
        seen,
        vec![
            (TokenType::Sym, "ab1", 1, 1),
            (TokenType::NumLit, "12", 1, 5),
            (TokenType::Op, "+=", 1, 8),
            (TokenType::OpenBracket, "(", 2, 1),
            (TokenType::StringLit, "a b", 2, 2),
            (TokenType::CloseBracket, ")", 2, 7),
        ]
    );
    assert_eq!(toks[0].pos.filename, Some("test.tk".to_string()));
}

#[test]
fn lexer_stops_before_an_open_string() {
    let toks = lex_string("test.tk", "1 'abc");
    assert_eq!(toks.len(), 1);
    assert_eq!(toks[0].value, "1");
    assert!(lex_string("test.tk", "  \n ").is_empty());
}

#[test]
fn text_is_compares_texts() {
    assert!(text_is(&"=".to_string(), "="));
    assert!(!text_is(&"==".to_string(), "="));
}
