//! The first pass over a parsed module: every binding gets its path and an
//! entry in the symbol table, so that the second pass can resolve names
//! that are used before they are defined.

use crate::ast::{
    clone_info, clone_path, lets_view, path_view, Abs, AbsView,
    Apply, ApplyView, BinOp, BinOpView, InfoView, Let, LetView, Node, NodeView,
    PathView, Symbol, SymbolView, UnOp, UnOpView,
};
use crate::errors::{TError, TErrorView};
use crate::symbol_table::{
    lemma_grows_by_one, lemma_grows_on, table_grows, with_entry, with_use, Table, TableView,
};
use vstd::prelude::*;

verus! {

/// A tree and the table after a pass over it, or the reason why the pass
/// failed.
pub type Built = Result<(NodeView, TableView), TErrorView>;

/// A binding and the table after a pass over it.
pub type BuiltLet = Result<(LetView, TableView), TErrorView>;

/// Bindings and the table after a pass over them.
pub type BuiltLets = Result<(Seq<LetView>, TableView), TErrorView>;

/// What a pass carries along: the table, and the path of the binding that
/// it is in.
#[derive(Debug)]
pub struct State {
    pub table: Table,
    pub path: Vec<Symbol>,
}

/// A module after a pass: its tree and its symbol table.
#[derive(Debug)]
pub struct Root {
    pub ast: Node,
    pub table: Table,
}

/// Walks a tree and enters its bindings in the symbol table.
#[derive(Debug)]
pub struct SymbolTableBuilder {}

/// The metadata `info`, with `at` as the place of the definition.
pub open spec fn defined(info: InfoView, at: PathView) -> InfoView {
    InfoView { defined_at: Some(at), ..info }
}

/// The pass over a tree that stands in the binding at `path`.
pub open spec fn spec_build(table: TableView, path: PathView, node: NodeView) -> Built
    decreases node,
{
    match node {
        NodeView::Error(e) => Err(TErrorView::FailedParse(e.msg, e.info)),
        NodeView::SymNode(_) => Ok((node, table)),
        NodeView::PrimNode(_, _) => Ok((node, table)),
        NodeView::ApplyNode(a) => {
            let inside = path.push(SymbolView::Anon);
            match spec_build_lets(table, inside, a.args) {
                Err(e) => Err(e),
                Ok((args, t1)) => match spec_build(t1, inside, *a.inner) {
                    Err(e) => Err(e),
                    Ok((inner, t2)) => Ok(
                        (
                            NodeView::ApplyNode(
                                ApplyView { inner: Box::new(inner), args, info: a.info },
                            ),
                            t2,
                        ),
                    ),
                },
            }
        },
        NodeView::AbsNode(a) => {
            let at = path.push(SymbolView::Named(a.name));
            match spec_build(with_entry(table, at), at, *a.value) {
                Err(e) => Err(e),
                Ok((value, t1)) => Ok(
                    (
                        NodeView::AbsNode(
                            AbsView {
                                name: a.name,
                                value: Box::new(value),
                                info: defined(a.info, at),
                            },
                        ),
                        t1,
                    ),
                ),
            }
        },
        NodeView::LetNode(l) => match spec_build_let(table, path, l) {
            Err(e) => Err(e),
            Ok((binding, t1)) => Ok((NodeView::LetNode(binding), t1)),
        },
        NodeView::UnOpNode(u) => match spec_build(table, path, *u.inner) {
            Err(e) => Err(e),
            Ok((inner, t1)) => Ok(
                (
                    NodeView::UnOpNode(
                        UnOpView { name: u.name, inner: Box::new(inner), info: u.info },
                    ),
                    t1,
                ),
            ),
        },
        NodeView::BinOpNode(b) => match spec_build(table, path, *b.left) {
            Err(e) => Err(e),
            Ok((left, t1)) => match spec_build(t1, path, *b.right) {
                Err(e) => Err(e),
                Ok((right, t2)) => Ok(
                    (
                        NodeView::BinOpNode(
                            BinOpView {
                                name: b.name,
                                left: Box::new(left),
                                right: Box::new(right),
                                info: b.info,
                            },
                        ),
                        t2,
                    ),
                ),
            },
        },
    }
}

/// The pass over a binding: it gets an entry at its path, and its
/// parameters and its value stand in it.
pub open spec fn spec_build_let(table: TableView, path: PathView, binding: LetView) -> BuiltLet
    decreases binding,
{
    let at = path.push(SymbolView::Named(binding.name));
    let t0 = with_entry(table, at);
    match binding.args {
        None => match spec_build(t0, at, *binding.value) {
            Err(e) => Err(e),
            Ok((value, t2)) => Ok(
                (
                    LetView {
                        name: binding.name,
                        value: Box::new(value),
                        args: None,
                        info: defined(binding.info, at),
                    },
                    t2,
                ),
            ),
        },
        Some(params) => match spec_build_lets(t0, at, params) {
            Err(e) => Err(e),
            Ok((args, t1)) => match spec_build(t1, at, *binding.value) {
                Err(e) => Err(e),
                Ok((value, t2)) => Ok(
                    (
                        LetView {
                            name: binding.name,
                            value: Box::new(value),
                            args: Some(args),
                            info: defined(binding.info, at),
                        },
                        t2,
                    ),
                ),
            },
        },
    }
}

/// The pass over bindings that stand side by side, first to last.
pub open spec fn spec_build_lets(table: TableView, path: PathView, bindings: Seq<LetView>) -> BuiltLets
    decreases bindings,
{
    if bindings.len() == 0 {
        Ok((Seq::empty(), table))
    } else {
        match spec_build_lets(table, path, bindings.drop_last()) {
            Err(e) => Err(e),
            Ok((done, t1)) => match spec_build_let(t1, path, bindings.last()) {
                Err(e) => Err(e),
                Ok((binding, t2)) => Ok((done.push(binding), t2)),
            },
        }
    }
}

/// An error among the first bindings is the error of them all.
pub proof fn lemma_build_lets_fails(
    table: TableView,
    path: PathView,
    bindings: Seq<LetView>,
    n: int,
)
    requires
        0 <= n <= bindings.len(),
        spec_build_lets(table, path, bindings.take(n)) is Err,
    ensures
        spec_build_lets(table, path, bindings) == spec_build_lets(table, path, bindings.take(n)),
    decreases bindings.len() - n,
{
    if n == bindings.len() {
        assert(bindings.take(n) =~= bindings);
    } else {
        assert(bindings.take(n + 1).drop_last() =~= bindings.take(n));
        lemma_build_lets_fails(table, path, bindings, n + 1);
    }
}

/// The table with an entry for each of `names` at the top.
pub open spec fn with_globals(table: TableView, names: Seq<Seq<char>>) -> TableView
    decreases names.len(),
{
    if names.len() == 0 {
        table
    } else {
        with_entry(with_globals(table, names.drop_last()), seq![SymbolView::Named(names.last())])
    }
}

/// The table before the pass over the module at `module`: `main` is defined
/// in the module and used by it, and the names that the language provides
/// are defined at the top.
pub open spec fn seed_table(module: PathView, names: Seq<Seq<char>>) -> TableView {
    let main_at = module.push(SymbolView::Named("main"@));
    with_globals(
        with_use(with_entry(Map::<PathView, Set<PathView>>::empty(), main_at), main_at, module),
        names,
    )
}

/// The pass over the tree of the module at `module`.
pub open spec fn spec_build_root(module: PathView, names: Seq<Seq<char>>, ast: NodeView) -> Built {
    spec_build(seed_table(module, names), module, ast)
}

/// What a pass promises of its result: the tree and the table that the
/// function `model` gives, with the path of the state as it was before;
/// after an error the state is not to be used.
pub open spec fn pass_result(
    r: Result<Node, TError>,
    before: State,
    after: State,
    model: Built,
) -> bool {
    match r {
        Ok(node) => model == Ok::<(NodeView, TableView), TErrorView>((node@, after.table@))
            && path_view(after.path@) == path_view(before.path@),
        Err(e) => model == Err::<(NodeView, TableView), TErrorView>(e@),
    }
}

/// The same for the pass over a binding.
pub open spec fn let_pass_result(
    r: Result<Let, TError>,
    before: State,
    after: State,
    model: BuiltLet,
) -> bool {
    match r {
        Ok(binding) => model == Ok::<(LetView, TableView), TErrorView>((binding@, after.table@))
            && path_view(after.path@) == path_view(before.path@),
        Err(e) => model == Err::<(LetView, TableView), TErrorView>(e@),
    }
}

/// The same for the pass over bindings.
pub open spec fn lets_pass_result(
    r: Result<Vec<Let>, TError>,
    before: State,
    after: State,
    model: BuiltLets,
) -> bool {
    match r {
        Ok(bindings) => model == Ok::<(Seq<LetView>, TableView), TErrorView>(
            (lets_view(bindings@), after.table@),
        ) && path_view(after.path@) == path_view(before.path@),
        Err(e) => model == Err::<(Seq<LetView>, TableView), TErrorView>(e@),
    }
}

/// Enters `symbol` at the end of the path.
pub fn enter(path: &mut Vec<Symbol>, symbol: Symbol)
    ensures
        path_view(final(path)@) == path_view(old(path)@).push(symbol@),
{
    path.push(symbol);
    assert(path_view(path@) =~= path_view(old(path)@).push(symbol@));
}

/// Leaves the last segment of the path.
pub fn leave(path: &mut Vec<Symbol>)
    requires
        path_view(old(path)@).len() > 0,
    ensures
        path_view(final(path)@) == path_view(old(path)@).drop_last(),
{
    path.pop();
    assert(path_view(path@) =~= path_view(old(path)@).drop_last());
}

impl SymbolTableBuilder {
    /// A builder.
    pub fn new() -> SymbolTableBuilder {
        SymbolTableBuilder {  }
    }

    /// Builds the symbol table of the module at `module`, whose tree is
    /// `ast`; `extern_names` are the names that the language provides.
    pub fn visit_root(&self, ast: &Node, module: &Vec<Symbol>, extern_names: &Vec<String>) -> (r:
        Result<Root, TError>)
        ensures
            match r {
                Ok(root) => spec_build_root(
                    path_view(module@),
                    crate::primitives::names_view(extern_names@),
                    ast@,
                ) == Ok::<(NodeView, TableView), TErrorView>((root.ast@, root.table@)),
                Err(e) => spec_build_root(
                    path_view(module@),
                    crate::primitives::names_view(extern_names@),
                    ast@,
                ) == Err::<(NodeView, TableView), TErrorView>(e@),
            },
    {
        let ghost names = crate::primitives::names_view(extern_names@);
        let mut table = Table::default();
        let mut main_at = clone_path(module);
        enter(&mut main_at, Symbol::Named(String::from_str("main")));
        table.get_mut(&main_at);
        table.add_use(&main_at, module);
        let ghost seeded = table@;
        let mut i: usize = 0;
        while i < extern_names.len()
            invariant
                i <= extern_names.len(),
                names == crate::primitives::names_view(extern_names@),
                table@ == with_globals(seeded, names.take(i as int)),
            decreases extern_names.len() - i,
        {
            let global = vec![Symbol::Named(extern_names[i].clone())];
            assert(path_view(global@) =~= seq![SymbolView::Named(names[i as int])]);
            table.get_mut(&global);
            proof {
                assert(names.take(i as int + 1).drop_last() =~= names.take(i as int));
                assert(names.take(i as int + 1).last() == names[i as int]);
            }
            i += 1;
        }
        assert(names.take(i as int) =~= names);
        let mut state = State { table, path: clone_path(module) };
        match self.visit(&mut state, ast) {
            Ok(tree) => Ok(Root { ast: tree, table: state.table }),
            Err(e) => Err(e),
        }
    }

    /// The pass over a tree; see [`spec_build`].
    pub fn visit(&self, state: &mut State, expr: &Node) -> (r: Result<Node, TError>)
        ensures
            pass_result(
                r,
                *old(state),
                *final(state),
                spec_build(old(state).table@, path_view(old(state).path@), expr@),
            ),
        decreases expr,
    {
        match expr {
            Node::Error(e) => Err(TError::FailedParse(e.msg.clone(), clone_info(&e.info))),
            Node::SymNode(s) => Ok(Node::SymNode(s.clone())),
            Node::PrimNode(p, info) => Ok(Node::PrimNode(p.clone(), clone_info(info))),
            Node::ApplyNode(a) => self.visit_apply(state, a),
            Node::AbsNode(a) => self.visit_abs(state, a),
            Node::LetNode(l) => match self.visit_let(state, l) {
                Ok(binding) => Ok(Node::LetNode(binding)),
                Err(e) => Err(e),
            },
            Node::UnOpNode(u) => self.visit_un_op(state, u),
            Node::BinOpNode(b) => self.visit_bin_op(state, b),
        }
    }

    /// The pass over bindings that stand side by side.
    pub fn visit_lets(&self, state: &mut State, bindings: &Vec<Let>) -> (r: Result<Vec<Let>, TError>)
        ensures
            lets_pass_result(
                r,
                *old(state),
                *final(state),
                spec_build_lets(
                    old(state).table@,
                    path_view(old(state).path@),
                    lets_view(bindings@),
                ),
            ),
        decreases bindings,
    {
        let ghost table = state.table@;
        let ghost path = path_view(state.path@);
        let ghost all = lets_view(bindings@);
        let mut done: Vec<Let> = Vec::new();
        let mut i: usize = 0;
        assert(all.take(0) =~= Seq::<LetView>::empty());
        assert(lets_view(done@) =~= Seq::<LetView>::empty());
        while i < bindings.len()
            invariant
                i <= bindings.len(),
                all == lets_view(bindings@),
                table == old(state).table@,
                path == path_view(old(state).path@),
                path == path_view(state.path@),
                spec_build_lets(table, path, all.take(i as int)) == Ok::<
                    (Seq<LetView>, TableView),
                    TErrorView,
                >((lets_view(done@), state.table@)),
            decreases bindings.len() - i,
        {
            let ghost so_far = lets_view(done@);
            proof {
                assert(all.take(i as int + 1).drop_last() =~= all.take(i as int));
                assert(all.take(i as int + 1).last() == bindings[i as int]@);
            }
            match self.visit_let(state, &bindings[i]) {
                Ok(binding) => {
                    done.push(binding);
                    assert(lets_view(done@) =~= so_far.push(binding@));
                },
                Err(e) => {
                    proof {
                        lemma_build_lets_fails(table, path, all, i as int + 1);
                    }
                    return Err(e);
                },
            }
            i += 1;
        }
        assert(all.take(i as int) =~= all);
        Ok(done)
    }

    /// The pass over an application: its arguments and its function stand
    /// in a scope without a name.
    pub fn visit_apply(&self, state: &mut State, expr: &Apply) -> (r: Result<Node, TError>)
        ensures
            pass_result(
                r,
                *old(state),
                *final(state),
                spec_build(
                    old(state).table@,
                    path_view(old(state).path@),
                    NodeView::ApplyNode(expr@),
                ),
            ),
        decreases expr,
    {
        enter(&mut state.path, Symbol::Anon());
        let args = match self.visit_lets(state, &expr.args) {
            Ok(args) => args,
            Err(e) => {
                return Err(e);
            },
        };
        let inner = match self.visit(state, &expr.inner) {
            Ok(inner) => inner,
            Err(e) => {
                return Err(e);
            },
        };
        leave(&mut state.path);
        assert(path_view(state.path@) =~= path_view(old(state).path@));
        Ok(Node::ApplyNode(Apply { inner: Box::new(inner), args, info: clone_info(&expr.info) }))
    }

    /// The pass over an abstraction: it gets an entry at its path, and its
    /// value stands in it.
    pub fn visit_abs(&self, state: &mut State, expr: &Abs) -> (r: Result<Node, TError>)
        ensures
            pass_result(
                r,
                *old(state),
                *final(state),
                spec_build(
                    old(state).table@,
                    path_view(old(state).path@),
                    NodeView::AbsNode(expr@),
                ),
            ),
        decreases expr,
    {
        let mut info = clone_info(&expr.info);
        enter(&mut state.path, Symbol::Named(expr.name.clone()));
        info.defined_at = Some(clone_path(&state.path));
        assert(info@ == defined(expr@.info, path_view(state.path@)));
        state.table.get_mut(&state.path);
        let value = match self.visit(state, &expr.value) {
            Ok(value) => value,
            Err(e) => {
                return Err(e);
            },
        };
        leave(&mut state.path);
        assert(path_view(state.path@) =~= path_view(old(state).path@));
        Ok(Node::AbsNode(Abs { name: expr.name.clone(), value: Box::new(value), info }))
    }

    /// The pass over a binding; see [`spec_build_let`].
    pub fn visit_let(&self, state: &mut State, expr: &Let) -> (r: Result<Let, TError>)
        ensures
            let_pass_result(
                r,
                *old(state),
                *final(state),
                spec_build_let(old(state).table@, path_view(old(state).path@), expr@),
            ),
        decreases expr,
    {
        let mut info = clone_info(&expr.info);
        enter(&mut state.path, Symbol::Named(expr.name.clone()));
        info.defined_at = Some(clone_path(&state.path));
        state.table.get_mut(&state.path);
        let args = match &expr.args {
            Some(params) => match self.visit_lets(state, params) {
                Ok(args) => Some(args),
                Err(e) => {
                    return Err(e);
                },
            },
            None => None,
        };
        let value = match self.visit(state, &expr.value) {
            Ok(value) => value,
            Err(e) => {
                return Err(e);
            },
        };
        leave(&mut state.path);
        assert(path_view(state.path@) =~= path_view(old(state).path@));
        Ok(Let { name: expr.name.clone(), value: Box::new(value), args, info })
    }

    /// The pass over an operator with one argument.
    pub fn visit_un_op(&self, state: &mut State, expr: &UnOp) -> (r: Result<Node, TError>)
        ensures
            pass_result(
                r,
                *old(state),
                *final(state),
                spec_build(
                    old(state).table@,
                    path_view(old(state).path@),
                    NodeView::UnOpNode(expr@),
                ),
            ),
        decreases expr,
    {
        let inner = match self.visit(state, &expr.inner) {
            Ok(inner) => inner,
            Err(e) => {
                return Err(e);
            },
        };
        Ok(
            Node::UnOpNode(
                UnOp { name: expr.name.clone(), inner: Box::new(inner), info: clone_info(&expr.info) },
            ),
        )
    }

    /// The pass over an operator with two arguments, left before right.
    pub fn visit_bin_op(&self, state: &mut State, expr: &BinOp) -> (r: Result<Node, TError>)
        ensures
            pass_result(
                r,
                *old(state),
                *final(state),
                spec_build(
                    old(state).table@,
                    path_view(old(state).path@),
                    NodeView::BinOpNode(expr@),
                ),
            ),
        decreases expr,
    {
        let left = match self.visit(state, &expr.left) {
            Ok(left) => left,
            Err(e) => {
                return Err(e);
            },
        };
        let right = match self.visit(state, &expr.right) {
            Ok(right) => right,
            Err(e) => {
                return Err(e);
            },
        };
        Ok(
            Node::BinOpNode(
                BinOp {
                    name: expr.name.clone(),
                    left: Box::new(left),
                    right: Box::new(right),
                    info: clone_info(&expr.info),
                },
            ),
        )
    }
}

// ---------------------------------------------------------------------
// The table only grows
// ---------------------------------------------------------------------
/// The first pass takes nothing out of the table: what it held before the
/// pass it holds after it.
pub proof fn lemma_build_grows(table: TableView, path: PathView, node: NodeView)
    ensures
        spec_build(table, path, node) matches Ok((_, after)) ==> table_grows(table, after),
    decreases node,
{
    match node {
        NodeView::ApplyNode(a) => {
            let inside = path.push(SymbolView::Anon);
            lemma_build_lets_grow(table, inside, a.args);
            match spec_build_lets(table, inside, a.args) {
                Ok((_, t1)) => {
                    lemma_build_grows(t1, inside, *a.inner);
                    match spec_build(t1, inside, *a.inner) {
                        Ok((_, t2)) => {
                            lemma_grows_on(table, t1, t2);
                        },
                        Err(_) => {},
                    }
                },
                Err(_) => {},
            }
        },
        NodeView::AbsNode(a) => {
            let at = path.push(SymbolView::Named(a.name));
            let t0 = with_entry(table, at);
            lemma_grows_by_one(table, at, at);
            lemma_build_grows(t0, at, *a.value);
            match spec_build(t0, at, *a.value) {
                Ok((_, t1)) => {
                    lemma_grows_on(table, t0, t1);
                },
                Err(_) => {},
            }
        },
        NodeView::LetNode(l) => {
            lemma_build_let_grows(table, path, l);
        },
        NodeView::UnOpNode(u) => {
            lemma_build_grows(table, path, *u.inner);
        },
        NodeView::BinOpNode(b) => {
            lemma_build_grows(table, path, *b.left);
            match spec_build(table, path, *b.left) {
                Ok((_, t1)) => {
                    lemma_build_grows(t1, path, *b.right);
                    match spec_build(t1, path, *b.right) {
                        Ok((_, t2)) => {
                            lemma_grows_on(table, t1, t2);
                        },
                        Err(_) => {},
                    }
                },
                Err(_) => {},
            }
        },
        _ => {},
    }
}

/// The same of the pass over a binding.
pub proof fn lemma_build_let_grows(table: TableView, path: PathView, binding: LetView)
    ensures
        spec_build_let(table, path, binding) matches Ok((_, after)) ==> table_grows(
            table,
            after,
        ),
    decreases binding,
{
    let at = path.push(SymbolView::Named(binding.name));
    let t0 = with_entry(table, at);
    lemma_grows_by_one(table, at, at);
    match binding.args {
        None => {
            lemma_build_grows(t0, at, *binding.value);
            match spec_build(t0, at, *binding.value) {
                Ok((_, t2)) => {
                    lemma_grows_on(table, t0, t2);
                },
                Err(_) => {},
            }
        },
        Some(params) => {
            lemma_build_lets_grow(t0, at, params);
            match spec_build_lets(t0, at, params) {
                Ok((_, t1)) => {
                    lemma_grows_on(table, t0, t1);
                    lemma_build_grows(t1, at, *binding.value);
                    match spec_build(t1, at, *binding.value) {
                        Ok((_, t2)) => {
                            lemma_grows_on(table, t1, t2);
                        },
                        Err(_) => {},
                    }
                },
                Err(_) => {},
            }
        },
    }
}

/// The same of the pass over bindings.
pub proof fn lemma_build_lets_grow(table: TableView, path: PathView, bindings: Seq<LetView>)
    ensures
        spec_build_lets(table, path, bindings) matches Ok((_, after)) ==> table_grows(
            table,
            after,
        ),
    decreases bindings,
{
    if bindings.len() > 0 {
        lemma_build_lets_grow(table, path, bindings.drop_last());
        match spec_build_lets(table, path, bindings.drop_last()) {
            Ok((_, t1)) => {
                lemma_build_let_grows(t1, path, bindings.last());
                match spec_build_let(t1, path, bindings.last()) {
                    Ok((_, t2)) => {
                        lemma_grows_on(table, t1, t2);
                    },
                    Err(_) => {},
                }
            },
            Err(_) => {},
        }
    }
}

} // verus!
