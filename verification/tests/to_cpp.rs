use takolib::ast::Symbol;
use takolib::to_cpp::{make_name, pretty_print_block, Code, CodeGenerator, Wrap};

fn expr(text: &str) -> Code {
    Code::Expr(text.to_string())
}

fn statement(text: &str) -> Code {
    Code::Statement(text.to_string())
}

fn text(code: &Code) -> String {
    pretty_print_block(code, "")
}

#[test]
fn names_join_the_segments_of_a_path() {
    assert_eq!(make_name(vec![]), "");
    assert_eq!(make_name(vec![Symbol::Named("main".to_string())]), "main");
    assert_eq!(
        make_name(vec![
            Symbol::Named("test".to_string()),
            Symbol::Anon(),
            Symbol::Named("x".to_string()),
        ]),
        "test_?_x"
    );
}

#[test]
fn merge_joins_code_into_blocks() {
    assert_eq!(text(&Code::Empty.merge(expr("a"))), "a");
    assert_eq!(text(&expr("a").merge(Code::Empty)), "a");
    assert_eq!(text(&expr("a").merge(expr("b"))), "{  a;b}");
    assert_eq!(
        text(&Code::Block(vec![expr("a")]).merge(Code::Block(vec![expr("b")]))),
        "{ab}"
    );
    assert_eq!(
        text(&expr("a").merge(Code::Block(vec![statement("b")]))),
        "{  a;  b;}"
    );
    assert_eq!(
        text(&Code::Block(vec![expr("a"), statement("b")]).merge(expr("c"))),
        "{  a;  b;c}"
    );
}

#[test]
fn with_expr_wraps_the_last_expression() {
    let call = Wrap::Call { before: "f".to_string() };
    assert_eq!(text(&expr("x").with_expr(&call)), "f(x)");
    assert_eq!(text(&statement("x").with_expr(&call)), "x;");
    assert_eq!(
        text(&Code::Block(vec![statement("a"), expr("b")]).with_expr(&Wrap::Return)),
        "{  a;  return b;}"
    );
    let define = Wrap::Define { name: "y".to_string() };
    assert_eq!(text(&expr("1").with_expr(&define)), "const auto y = 1;");
    let function = Code::Func {
        name: "f".to_string(),
        args: Box::new(expr("int n")),
        return_type: "int".to_string(),
        body: Box::new(expr("n")),
        lambda: false,
    };
    assert_eq!(
        pretty_print_block(&function.clone().with_expr(&Wrap::Return), "\n"),
        "\nint f(int n) {\n  return n;\n}"
    );
    let lambda = Code::Func {
        name: "f".to_string(),
        args: Box::new(Code::Empty),
        return_type: "int".to_string(),
        body: Box::new(Code::Block(vec![statement("return 1")])),
        lambda: true,
    };
    assert_eq!(text(&lambda), "const auto f = [&]() {  return 1;};");
}

#[test]
fn calls_are_built_from_expressions() {
    let generator = CodeGenerator::default();
    assert_eq!(text(&generator.build_call1("not", expr("x"))), "not(x)");
    assert_eq!(
        text(&generator.build_call2("pow", ", ", expr("2"), expr("3"))),
        "pow(2, 3)"
    );
    assert_eq!(
        text(&generator.build_call2("", "+", Code::Block(vec![statement("a"), expr("b")]), expr("c"))),
        "{  a;(b+c)}"
    );
    assert!(generator.functions.is_empty());
}

#[test]
fn conditions_and_structs_are_printed() {
    let choice = Code::If {
        condition: Box::new(expr("c")),
        consequent: Box::new(expr("a")),
        alternative: Box::new(statement("throw 101")),
    };
    assert_eq!(text(&choice), "if(c) a else throw 101;");
    assert_eq!(text(&Code::Struct(vec![expr("1"), expr("2")])), "{1, 2}");
    assert_eq!(text(&Code::Block(vec![])), "{}");
}

#[test]
fn an_empty_block_has_no_end() {
    assert!(expr("a").ends_somewhere());
    assert!(Code::Empty.ends_somewhere());
    assert!(Code::Block(vec![statement("a"), expr("b")]).ends_somewhere());
    assert!(!Code::Block(vec![]).ends_somewhere());
    assert!(!Code::Block(vec![expr("a"), Code::Block(vec![])]).ends_somewhere());
}
