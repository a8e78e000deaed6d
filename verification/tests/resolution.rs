use takolib::ast::{Info, Let, Node, Path, Sym, Symbol};
use takolib::definition_finder::DefinitionFinder;
use takolib::errors::TError;
use takolib::externs::get_externs;
use takolib::parser::parse_string;
use takolib::rescoper::{ReScoper, ReScoperError};
use takolib::symbol_table::Table;
use takolib::symbol_table_builder::{Root, State, SymbolTableBuilder};

fn parse(text: &str) -> Node {
    parse_string(&get_externs(), "test.tk", text).expect("failed to parse string")
}

fn path(names: &[&str]) -> Path {
    names
        .iter()
        .map(|n| {
            if *n == "?" {
                Symbol::Anon()
            } else {
                Symbol::Named(n.to_string())
            }
        })
        .collect()
}

fn extern_names() -> Vec<String> {
    get_externs().entries.iter().map(|e| e.name.clone()).collect()
}

fn build(text: &str) -> Root {
    SymbolTableBuilder::new()
        .visit_root(&parse(text), &path(&["test"]), &extern_names())
        .expect("failed to build the table")
}

fn resolve(text: &str) -> Result<Root, TError> {
    DefinitionFinder::new().visit_root(&build(text), &path(&["test"]))
}

fn uses(table: &Table, names: &[&str]) -> Vec<Path> {
    table.find(&path(names)).expect("no entry").uses.clone()
}

/// The references of a tree, each with the path of its definition.
fn references(node: &Node, found: &mut Vec<(String, Option<Path>)>) {
    match node {
        Node::SymNode(s) => found.push((s.name.clone(), s.info.defined_at.clone())),
        Node::ApplyNode(a) => {
            for arg in a.args.iter() {
                references_of_let(arg, found);
            }
            references(&a.inner, found);
        }
        Node::AbsNode(a) => references(&a.value, found),
        Node::LetNode(l) => references_of_let(l, found),
        Node::UnOpNode(u) => references(&u.inner, found),
        Node::BinOpNode(b) => {
            references(&b.left, found);
            references(&b.right, found);
        }
        Node::PrimNode(_, _) | Node::Error(_) => {}
    }
}

fn references_of_let(binding: &Let, found: &mut Vec<(String, Option<Path>)>) {
    if let Some(args) = &binding.args {
        for arg in args.iter() {
            references_of_let(arg, found);
        }
    }
    references(&binding.value, found);
}

// The symbol table.

#[test]
fn table_makes_entries_once() {
    let mut table = Table::default();
    assert!(!table.contains(&path(&["a"])));
    table.get_mut(&path(&["a"]));
    table.get_mut(&path(&["a", "b"]));
    table.get_mut(&path(&["a"]));
    assert_eq!(table.entries.len(), 2);
    assert!(table.contains(&path(&["a"])));
    assert!(table.contains(&path(&["a", "b"])));
    assert!(!table.contains(&path(&["b"])));
    assert_eq!(table.is_unused(&path(&["a"])), Some(true));
    assert_eq!(table.is_unused(&path(&["b"])), None);
}

#[test]
fn table_records_a_use_once() {
    let mut table = Table::default();
    table.get_mut(&path(&["a"]));
    assert!(table.add_use(&path(&["a"]), &path(&["m"])));
    assert!(table.add_use(&path(&["a"]), &path(&["m"])));
    assert!(table.add_use(&path(&["a"]), &path(&["m", "?"])));
    assert!(!table.add_use(&path(&["b"]), &path(&["m"])));
    assert_eq!(uses(&table, &["a"]), vec![path(&["m"]), path(&["m", "?"])]);
    assert_eq!(table.is_unused(&path(&["a"])), Some(false));
    assert!(!table.contains(&path(&["b"])));
}

// The first pass.

#[test]
fn builder_enters_every_binding() {
    let root = build("x(it)=it*2;x(3)");
    for at in [
        vec!["test", "main"],
        vec!["test", "x"],
        vec!["test", "x", "it"],
        vec!["test", "?", "it"],
        vec!["+"],
        vec!["I32"],
    ] {
        assert!(root.table.contains(&path(&at)), "{:?}", at);
    }
    assert!(!root.table.contains(&path(&["test", "it"])));
    assert_eq!(uses(&root.table, &["test", "main"]), vec![path(&["test"])]);
    assert_eq!(root.table.is_unused(&path(&["test", "x"])), Some(true));
    match &root.ast {
        Node::BinOpNode(b) => match &*b.left {
            Node::LetNode(l) => {
                assert_eq!(l.info.defined_at, Some(path(&["test", "x"])));
                let args = l.args.as_ref().expect("no parameters");
                assert_eq!(args[0].info.defined_at, Some(path(&["test", "x", "it"])));
            }
            other => panic!("not a binding: {:?}", other),
        },
        other => panic!("not a sequence: {:?}", other),
    }
}

#[test]
fn builder_enters_abstractions() {
    let root = build("x|-x");
    assert!(root.table.contains(&path(&["test", "x"])));
    match &root.ast {
        Node::AbsNode(a) => assert_eq!(a.info.defined_at, Some(path(&["test", "x"]))),
        other => panic!("not an abstraction: {:?}", other),
    }
}

#[test]
fn builder_passes_parse_errors_on() {
    let broken = parse("");
    let result = SymbolTableBuilder::new().visit_root(&broken, &path(&["test"]), &extern_names());
    assert_eq!(
        result.map(|_| ()),
        Err(TError::FailedParse(
            "Unexpected eof, expected expr".to_string(),
            Info::default()
        ))
    );
}

// The second pass.

#[test]
fn function_binding_resolves_fully() {
    let root = resolve("x(it)=it*2;x(3)").expect("failed to resolve");
    let mut found = vec![];
    references(&root.ast, &mut found);
    assert_eq!(
        found,
        vec![
            ("it".to_string(), Some(path(&["test", "x", "it"]))),
            ("it".to_string(), Some(path(&["test", "x", "it"]))),
            ("x".to_string(), Some(path(&["test", "x"]))),
        ]
    );
    assert_eq!(
        uses(&root.table, &["test", "x", "it"]),
        vec![path(&["test", "x", "it"]), path(&["test", "x"])]
    );
    assert_eq!(uses(&root.table, &["test", "x"]), vec![path(&["test", "?"])]);
    assert_eq!(uses(&root.table, &["test", "?", "it"]), vec![path(&["test", "?"])]);
}

#[test]
fn every_use_is_on_record() {
    let root = resolve("a=1;f(x)=x+a;g(y)=f(y)+f(a);g(2)").expect("failed to resolve");
    let mut found = vec![];
    references(&root.ast, &mut found);
    assert_eq!(found.len(), 9);
    for (name, at) in found {
        let at = at.expect("unresolved");
        assert_eq!(at.last(), Some(&Symbol::Named(name)));
        assert_eq!(root.table.is_unused(&at), Some(false));
    }
    assert_eq!(
        uses(&root.table, &["test", "a"]),
        vec![path(&["test", "f"]), path(&["test", "g", "?", "a"])]
    );
}

#[test]
fn names_can_be_used_before_they_are_defined() {
    let root = resolve("f(x)=g(x);g(y)=y;f(1)").expect("failed to resolve");
    assert_eq!(uses(&root.table, &["test", "g"]), vec![path(&["test", "f", "?"])]);
}

#[test]
fn built_ins_resolve_at_the_top() {
    let root = resolve("I32").expect("failed to resolve");
    match &root.ast {
        Node::SymNode(s) => assert_eq!(s.info.defined_at, Some(path(&["I32"]))),
        other => panic!("not a reference: {:?}", other),
    }
    assert_eq!(uses(&root.table, &["I32"]), vec![path(&["test"])]);
}

#[test]
fn unknown_names_are_errors() {
    match resolve("f(x)=x+zzz") {
        Err(TError::UnknownSymbol(name, _, context)) => {
            assert_eq!(name, "zzz");
            assert_eq!(context, path(&["test", "f"]));
        }
        other => panic!("resolved: {:?}", other.map(|r| r.ast)),
    }
}

#[test]
fn resolve_walks_up_and_skips_anonymous_scopes() {
    let mut table = Table::default();
    table.get_mut(&path(&["m", "x"]));
    table.get_mut(&path(&["m", "f", "?", "x"]));
    let name = "x".to_string();
    assert_eq!(
        DefinitionFinder::resolve(&table, &path(&["m", "f", "g"]), &name),
        Some(path(&["m", "x"]))
    );
    assert_eq!(
        DefinitionFinder::resolve(&table, &path(&["m", "f", "?"]), &name),
        Some(path(&["m", "x"]))
    );
    assert_eq!(
        DefinitionFinder::resolve(&table, &path(&["m", "x"]), &name),
        Some(path(&["m", "x"]))
    );
    assert_eq!(DefinitionFinder::resolve(&table, &path(&["n"]), &name), None);
    assert_eq!(DefinitionFinder::resolve(&table, &path(&[]), &name), None);
    let mut state = State { table, path: path(&["m", "f"]) };
    let found = DefinitionFinder::new()
        .visit_sym(&mut state, &Sym::new("x".to_string()))
        .expect("unresolved");
    assert_eq!(found.get_info().defined_at, Some(path(&["m", "x"])));
    assert_eq!(state.path, path(&["m", "f"]));
    assert_eq!(uses(&state.table, &["m", "x"]), vec![path(&["m", "f"])]);
}

// Scopes.

fn scope(text: &str) -> (Node, Vec<String>) {
    ReScoper::default().visit_root(&parse(text)).expect("failed to resolve scopes")
}

#[test]
fn a_name_referenced_twice_is_required_once() {
    let (node, undeclared) = scope("f=y+y");
    assert_eq!(undeclared, vec!["y".to_string()]);
    match node {
        Node::LetNode(l) => {
            assert_eq!(l.info.requires, Some(vec!["y".to_string()]));
            assert!(l.info.is_function);
            match *l.value {
                Node::BinOpNode(sum) => {
                    assert!(matches!(*sum.left, Node::SymNode(Sym { depth: None, .. })));
                    assert!(matches!(*sum.right, Node::SymNode(Sym { depth: None, .. })));
                }
                other => panic!("not a sum: {:?}", other),
            }
        }
        other => panic!("not a binding: {:?}", other),
    }
}

#[test]
fn a_binding_does_not_list_what_is_pending_already() {
    let (node, undeclared) = scope("y;f=y+z");
    assert_eq!(undeclared, vec!["y".to_string(), "z".to_string()]);
    match node {
        Node::BinOpNode(seq) => match *seq.right {
            Node::LetNode(l) => assert_eq!(l.info.requires, Some(vec!["z".to_string()])),
            other => panic!("not a binding: {:?}", other),
        },
        other => panic!("not a sequence: {:?}", other),
    }
}

#[test]
fn bound_names_know_their_depth() {
    let (node, undeclared) = scope("x=3;f(x)+true");
    assert!(undeclared.contains(&"f".to_string()));
    assert_eq!(undeclared.len(), 1);
    match node {
        Node::BinOpNode(seq) => {
            match *seq.left {
                Node::LetNode(l) => {
                    assert_eq!(l.info.requires, Some(vec![]));
                    assert!(!l.info.is_function);
                }
                other => panic!("not a binding: {:?}", other),
            }
            match *seq.right {
                Node::BinOpNode(sum) => {
                    match *sum.left {
                        Node::ApplyNode(a) => {
                            // The argument is bound in the frame of the
                            // application, one frame out from the globals.
                            assert!(matches!(
                                *a.args[0].value,
                                Node::SymNode(Sym { depth: Some(0), .. })
                            ));
                        }
                        other => panic!("not an application: {:?}", other),
                    }
                    assert!(matches!(*sum.right, Node::PrimNode(_, _)));
                }
                other => panic!("not a sum: {:?}", other),
            }
        }
        other => panic!("not a sequence: {:?}", other),
    }
}

#[test]
fn recursion_needs_no_requirement() {
    let (node, undeclared) = scope("f(n)=f(n)");
    assert!(undeclared.is_empty());
    match node {
        Node::LetNode(l) => {
            assert_eq!(l.info.requires, Some(vec![]));
            assert!(!l.info.is_function);
        }
        other => panic!("not a binding: {:?}", other),
    }
}

#[test]
fn scopes_pass_parse_errors_on() {
    let broken = parse("");
    assert_eq!(
        ReScoper::default().visit_root(&broken),
        Err(ReScoperError::FailedParse(
            "Unexpected eof, expected expr".to_string(),
            Info::default()
        ))
    );
}

// Evaluation of a resolved tree. The evaluator is no part of the library;
// this one knows numbers, `*`, `+`, `;`, bindings and applications.

fn eval(node: &Node, frames: &mut Vec<Vec<(Path, Let)>>, values: &mut Vec<(Path, i32)>) -> i32 {
    match node {
        Node::PrimNode(takolib::primitives::Prim::I32(n), _) => *n,
        Node::BinOpNode(b) => {
            let left = eval(&b.left, frames, values);
            let right = eval(&b.right, frames, values);
            match b.name.as_str() {
                "*" => left.wrapping_mul(right),
                "+" => left.wrapping_add(right),
                ";" => right,
                other => panic!("unknown operator {}", other),
            }
        }
        Node::LetNode(l) => {
            let at = l.info.defined_at.clone().expect("binding without a path");
            if l.args.is_some() {
                frames.last_mut().expect("no frame").push((at, l.clone()));
                0
            } else {
                let value = eval(&l.value, frames, values);
                values.push((at, value));
                value
            }
        }
        Node::SymNode(s) => {
            let at = s.info.defined_at.clone().expect("unresolved reference");
            let found = values.iter().rev().find(|(p, _)| *p == at).map(|(_, v)| *v);
            found.expect("no value")
        }
        Node::ApplyNode(a) => {
            let name = match &*a.inner {
                Node::SymNode(s) => s.info.defined_at.clone().expect("unresolved function"),
                other => panic!("cannot apply {:?}", other),
            };
            let function = frames
                .iter()
                .rev()
                .flat_map(|f| f.iter().rev())
                .find(|(p, _)| *p == name)
                .map(|(_, l)| l.clone())
                .expect("no function");
            let params = function.args.clone().expect("no parameters");
            let before = values.len();
            for (param, arg) in params.iter().zip(a.args.iter()) {
                let value = eval(&arg.value, frames, values);
                values.push((param.info.defined_at.clone().expect("no path"), value));
            }
            let result = eval(&function.value, frames, values);
            values.truncate(before);
            result
        }
        other => panic!("cannot evaluate {:?}", other),
    }
}

fn eval_str(text: &str) -> i32 {
    let root = resolve(text).expect("failed to resolve");
    eval(&root.ast, &mut vec![vec![]], &mut vec![])
}

#[test]
fn parse_and_eval_let_with_args() {
    assert_eq!(eval_str("x(it)=it*2;x(3)"), 6);
}

#[test]
fn parse_and_eval_let() {
    assert_eq!(eval_str("x=3;x"), 3);
}
