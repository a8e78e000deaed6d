use takolib::ast::{Info, Node, Sym};
use takolib::externs::get_externs;
use takolib::parser::parse_string;
use takolib::primitives::Prim;
use takolib::type_checker::{can_infer, infer};

fn parse_string_for_test(prog: String) -> Node {
    parse_string(&get_externs(), "test.tk", &prog).expect("failed to parse string")
}

fn assert_type(prog: &str, ty: &str) {
    let prog = parse_string_for_test(prog.to_string());
    assert!(can_infer(&prog));
    let prog = infer(&prog);
    let ty = parse_string_for_test(ty.to_string());
    assert_eq!(prog, ty);
}

#[test]
fn infer_type_of_i32() {
    let num = Prim::I32(23).into_node();
    assert_eq!(
        infer(&num),
        Sym {
            name: "I32".to_owned(),
            depth: None,
            info: Info::default()
        }
        .into_node()
    );
    assert_type("23", "I32");
}

#[test]
fn infer_type_of_other_literals() {
    assert_type("true", "Bool");
    assert_type("\"abc\"", "String");
    assert!(!can_infer(&parse_string_for_test("x".to_string())));
    assert!(!can_infer(&parse_string_for_test("1+2".to_string())));
    assert!(!can_infer(&Prim::Tag(1, 2).into_node()));
}
