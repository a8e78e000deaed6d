//! The second pass over a module: every reference to a name is resolved to
//! the path of the nearest definition that encloses it, and the table
//! records the place of the reference among the uses of that definition.

use crate::ast::{
    clone_info, clone_path, lets_view, path_view, Abs, AbsView, Apply,
    ApplyView, BinOp, BinOpView, Let, LetView, Node, NodeView, PathView,
    Sym, SymView, Symbol, SymbolView, UnOp, UnOpView,
};
use crate::errors::{TError, TErrorView};
use crate::symbol_table::{table_grows, with_use, Table, TableView};
use crate::symbol_table_builder::{
    defined, enter, leave, let_pass_result, lets_pass_result, pass_result, Built, BuiltLet,
    BuiltLets, Root, State,
};
use vstd::prelude::*;

verus! {

/// Walks a tree and resolves its references.
#[derive(Debug)]
pub struct DefinitionFinder {}

/// The path from which the search for a name goes on after `search`: a
/// bare name cannot reach into the scope of an application, so a last
/// segment that is anonymous is left.
pub open spec fn search_base(search: PathView) -> PathView {
    if search.len() > 0 && search.last() is Anon {
        search.drop_last()
    } else {
        search
    }
}

/// The definition of `name` that is nearest to `search`: the name is looked
/// for in the binding at `search`, then in the binding around it, and so on
/// up to the top.
pub open spec fn spec_resolve(table: TableView, search: PathView, name: Seq<char>) -> Option<
    PathView,
>
    decreases search.len(),
{
    let base = search_base(search);
    let candidate = base.push(SymbolView::Named(name));
    if table.contains_key(candidate) {
        Some(candidate)
    } else if base.len() == 0 {
        None
    } else {
        spec_resolve(table, base.drop_last(), name)
    }
}

/// The pass over a tree that stands in the binding at `path`.
pub open spec fn spec_find(table: TableView, path: PathView, node: NodeView) -> Built
    decreases node,
{
    match node {
        NodeView::Error(e) => Err(TErrorView::FailedParse(e.msg, e.info)),
        NodeView::SymNode(s) => match spec_resolve(table, path, s.name) {
            Some(at) => Ok(
                (
                    NodeView::SymNode(SymView { info: defined(s.info, at), ..s }),
                    with_use(table, at, path),
                ),
            ),
            None => Err(TErrorView::UnknownSymbol(s.name, s.info, path)),
        },
        NodeView::PrimNode(_, _) => Ok((node, table)),
        NodeView::ApplyNode(a) => {
            let inside = path.push(SymbolView::Anon);
            match spec_find_lets(table, inside, a.args, true) {
                Err(e) => Err(e),
                Ok((args, t1)) => match spec_find(t1, inside, *a.inner) {
                    Err(e) => Err(e),
                    Ok((inner, t2)) => Ok(
                        (
                            NodeView::ApplyNode(
                                ApplyView { inner: Box::new(inner), args, info: a.info },
                            ),
                            t2,
                        ),
                    ),
                },
            }
        },
        NodeView::AbsNode(a) => match spec_find(table, path, *a.value) {
            Err(e) => Err(e),
            Ok((value, t1)) => Ok(
                (
                    NodeView::AbsNode(
                        AbsView { name: a.name, value: Box::new(value), info: a.info },
                    ),
                    t1,
                ),
            ),
        },
        NodeView::LetNode(l) => match spec_find_let(table, path, l) {
            Err(e) => Err(e),
            Ok((binding, t1)) => Ok((NodeView::LetNode(binding), t1)),
        },
        NodeView::UnOpNode(u) => match spec_find(table, path, *u.inner) {
            Err(e) => Err(e),
            Ok((inner, t1)) => Ok(
                (
                    NodeView::UnOpNode(
                        UnOpView { name: u.name, inner: Box::new(inner), info: u.info },
                    ),
                    t1,
                ),
            ),
        },
        NodeView::BinOpNode(b) => match spec_find(table, path, *b.left) {
            Err(e) => Err(e),
            Ok((left, t1)) => match spec_find(t1, path, *b.right) {
                Err(e) => Err(e),
                Ok((right, t2)) => Ok(
                    (
                        NodeView::BinOpNode(
                            BinOpView {
                                name: b.name,
                                left: Box::new(left),
                                right: Box::new(right),
                                info: b.info,
                            },
                        ),
                        t2,
                    ),
                ),
            },
        },
    }
}

/// The pass over a binding: its parameters and its value stand in it.
pub open spec fn spec_find_let(table: TableView, path: PathView, binding: LetView) -> BuiltLet
    decreases binding,
{
    let at = path.push(SymbolView::Named(binding.name));
    match binding.args {
        None => match spec_find(table, at, *binding.value) {
            Err(e) => Err(e),
            Ok((value, t2)) => Ok(
                (
                    LetView {
                        name: binding.name,
                        value: Box::new(value),
                        args: None,
                        info: binding.info,
                    },
                    t2,
                ),
            ),
        },
        Some(params) => match spec_find_lets(table, at, params, false) {
            Err(e) => Err(e),
            Ok((args, t1)) => match spec_find(t1, at, *binding.value) {
                Err(e) => Err(e),
                Ok((value, t2)) => Ok(
                    (
                        LetView {
                            name: binding.name,
                            value: Box::new(value),
                            args: Some(args),
                            info: binding.info,
                        },
                        t2,
                    ),
                ),
            },
        },
    }
}

/// The table after an argument named `name` was given at `path`: the
/// argument uses the definition of that name there, if there is one.
pub open spec fn with_argument(table: TableView, path: PathView, name: Seq<char>) -> TableView {
    let at = path.push(SymbolView::Named(name));
    if table.contains_key(at) {
        with_use(table, at, path)
    } else {
        table
    }
}

/// The pass over bindings that stand side by side, first to last. Where
/// they are the arguments of an application (`given`), each of them counts
/// as a use of what it binds.
pub open spec fn spec_find_lets(
    table: TableView,
    path: PathView,
    bindings: Seq<LetView>,
    given: bool,
) -> BuiltLets
    decreases bindings,
{
    if bindings.len() == 0 {
        Ok((Seq::empty(), table))
    } else {
        match spec_find_lets(table, path, bindings.drop_last(), given) {
            Err(e) => Err(e),
            Ok((done, t1)) => match spec_find_let(t1, path, bindings.last()) {
                Err(e) => Err(e),
                Ok((binding, t2)) => Ok(
                    (
                        done.push(binding),
                        if given {
                            with_argument(t2, path, binding.name)
                        } else {
                            t2
                        },
                    ),
                ),
            },
        }
    }
}

/// An error among the first bindings is the error of them all.
pub proof fn lemma_find_lets_fails(
    table: TableView,
    path: PathView,
    bindings: Seq<LetView>,
    given: bool,
    n: int,
)
    requires
        0 <= n <= bindings.len(),
        spec_find_lets(table, path, bindings.take(n), given) is Err,
    ensures
        spec_find_lets(table, path, bindings, given) == spec_find_lets(
            table,
            path,
            bindings.take(n),
            given,
        ),
    decreases bindings.len() - n,
{
    if n == bindings.len() {
        assert(bindings.take(n) =~= bindings);
    } else {
        assert(bindings.take(n + 1).drop_last() =~= bindings.take(n));
        lemma_find_lets_fails(table, path, bindings, given, n + 1);
    }
}

// ---------------------------------------------------------------------
// Every use is on record
// ---------------------------------------------------------------------
/// Every reference in the tree, which stands in the binding at `path`, is
/// resolved to a definition that the table holds, and the table has the
/// place of the reference among the uses of that definition.
pub open spec fn refs_recorded(node: NodeView, path: PathView, table: TableView) -> bool
    decreases node,
{
    match node {
        NodeView::Error(_) => true,
        NodeView::SymNode(s) => s.info.defined_at matches Some(at) && table.contains_key(at)
            && table[at].contains(path),
        NodeView::PrimNode(_, _) => true,
        NodeView::ApplyNode(a) => lets_recorded(a.args, path.push(SymbolView::Anon), table)
            && refs_recorded(*a.inner, path.push(SymbolView::Anon), table),
        NodeView::AbsNode(a) => refs_recorded(*a.value, path, table),
        NodeView::LetNode(l) => let_recorded(l, path, table),
        NodeView::UnOpNode(u) => refs_recorded(*u.inner, path, table),
        NodeView::BinOpNode(b) => refs_recorded(*b.left, path, table) && refs_recorded(
            *b.right,
            path,
            table,
        ),
    }
}

/// The same of a binding: of its parameters and its value, which stand
/// in it.
pub open spec fn let_recorded(binding: LetView, path: PathView, table: TableView) -> bool
    decreases binding,
{
    let at = path.push(SymbolView::Named(binding.name));
    (binding.args matches Some(params) ==> lets_recorded(params, at, table)) && refs_recorded(
        *binding.value,
        at,
        table,
    )
}

/// The same of each of the bindings.
pub open spec fn lets_recorded(bindings: Seq<LetView>, path: PathView, table: TableView) -> bool
    decreases bindings,
{
    forall|i: int|
        0 <= i < bindings.len() ==> let_recorded(#[trigger] bindings[i], path, table)
}

/// A definition that a search finds is one that the table holds.
pub proof fn lemma_resolve_in_table(table: TableView, search: PathView, name: Seq<char>)
    ensures
        spec_resolve(table, search, name) matches Some(at) ==> table.contains_key(at),
    decreases search.len(),
{
    let base = search_base(search);
    if !table.contains_key(base.push(SymbolView::Named(name))) && base.len() > 0 {
        lemma_resolve_in_table(table, base.drop_last(), name);
    }
}

/// What is on record stays on record while the table grows.
pub proof fn lemma_recorded_stays(
    node: NodeView,
    path: PathView,
    earlier: TableView,
    later: TableView,
)
    requires
        refs_recorded(node, path, earlier),
        table_grows(earlier, later),
    ensures
        refs_recorded(node, path, later),
    decreases node,
{
    match node {
        NodeView::Error(_) => {},
        NodeView::SymNode(s) => {},
        NodeView::PrimNode(_, _) => {},
        NodeView::ApplyNode(a) => {
            lemma_lets_recorded_stay(a.args, path.push(SymbolView::Anon), earlier, later);
            lemma_recorded_stays(*a.inner, path.push(SymbolView::Anon), earlier, later);
        },
        NodeView::AbsNode(a) => {
            lemma_recorded_stays(*a.value, path, earlier, later);
        },
        NodeView::LetNode(l) => {
            lemma_let_recorded_stays(l, path, earlier, later);
        },
        NodeView::UnOpNode(u) => {
            lemma_recorded_stays(*u.inner, path, earlier, later);
        },
        NodeView::BinOpNode(b) => {
            lemma_recorded_stays(*b.left, path, earlier, later);
            lemma_recorded_stays(*b.right, path, earlier, later);
        },
    }
}

/// What is on record of a binding stays on record while the table grows.
pub proof fn lemma_let_recorded_stays(
    binding: LetView,
    path: PathView,
    earlier: TableView,
    later: TableView,
)
    requires
        let_recorded(binding, path, earlier),
        table_grows(earlier, later),
    ensures
        let_recorded(binding, path, later),
    decreases binding,
{
    let at = path.push(SymbolView::Named(binding.name));
    match binding.args {
        Some(params) => {
            lemma_lets_recorded_stay(params, at, earlier, later);
        },
        None => {},
    }
    lemma_recorded_stays(*binding.value, at, earlier, later);
}

/// What is on record of bindings stays on record while the table grows.
pub proof fn lemma_lets_recorded_stay(
    bindings: Seq<LetView>,
    path: PathView,
    earlier: TableView,
    later: TableView,
)
    requires
        lets_recorded(bindings, path, earlier),
        table_grows(earlier, later),
    ensures
        lets_recorded(bindings, path, later),
    decreases bindings,
{
    assert forall|i: int| 0 <= i < bindings.len() implies let_recorded(
        #[trigger] bindings[i],
        path,
        later,
    ) by {
        lemma_let_recorded_stays(bindings[i], path, earlier, later);
    }
}

/// Use-site completeness. After the pass over a tree, every reference in
/// the result is resolved to a definition that the table holds, the table
/// has the place of the reference among the uses of that definition, and
/// the table has lost nothing that it held before.
pub proof fn lemma_find_records_uses(table: TableView, path: PathView, node: NodeView)
    ensures
        spec_find(table, path, node) matches Ok((found, after)) ==> refs_recorded(
            found,
            path,
            after,
        ) && table_grows(table, after),
    decreases node,
{
    match node {
        NodeView::Error(_) => {},
        NodeView::SymNode(s) => {
            lemma_resolve_in_table(table, path, s.name);
        },
        NodeView::PrimNode(_, _) => {},
        NodeView::ApplyNode(a) => {
            let inside = path.push(SymbolView::Anon);
            lemma_find_lets_record_uses(table, inside, a.args, true);
            match spec_find_lets(table, inside, a.args, true) {
                Ok((args, t1)) => {
                    lemma_find_records_uses(t1, inside, *a.inner);
                    match spec_find(t1, inside, *a.inner) {
                        Ok((inner, t2)) => {
                            lemma_lets_recorded_stay(args, inside, t1, t2);
                        },
                        Err(_) => {},
                    }
                },
                Err(_) => {},
            }
        },
        NodeView::AbsNode(a) => {
            lemma_find_records_uses(table, path, *a.value);
        },
        NodeView::LetNode(l) => {
            lemma_find_let_records_uses(table, path, l);
        },
        NodeView::UnOpNode(u) => {
            lemma_find_records_uses(table, path, *u.inner);
        },
        NodeView::BinOpNode(b) => {
            lemma_find_records_uses(table, path, *b.left);
            match spec_find(table, path, *b.left) {
                Ok((left, t1)) => {
                    lemma_find_records_uses(t1, path, *b.right);
                    match spec_find(t1, path, *b.right) {
                        Ok((right, t2)) => {
                            lemma_recorded_stays(left, path, t1, t2);
                        },
                        Err(_) => {},
                    }
                },
                Err(_) => {},
            }
        },
    }
}

/// Use-site completeness of the pass over a binding; the binding keeps
/// its name.
pub proof fn lemma_find_let_records_uses(table: TableView, path: PathView, binding: LetView)
    ensures
        spec_find_let(table, path, binding) matches Ok((found, after)) ==> let_recorded(
            found,
            path,
            after,
        ) && table_grows(table, after) && found.name == binding.name,
    decreases binding,
{
    let at = path.push(SymbolView::Named(binding.name));
    match binding.args {
        None => {
            lemma_find_records_uses(table, at, *binding.value);
        },
        Some(params) => {
            lemma_find_lets_record_uses(table, at, params, false);
            match spec_find_lets(table, at, params, false) {
                Ok((args, t1)) => {
                    lemma_find_records_uses(t1, at, *binding.value);
                    match spec_find(t1, at, *binding.value) {
                        Ok((value, t2)) => {
                            lemma_lets_recorded_stay(args, at, t1, t2);
                        },
                        Err(_) => {},
                    }
                },
                Err(_) => {},
            }
        },
    }
}

/// Use-site completeness of the pass over bindings that stand side by
/// side.
pub proof fn lemma_find_lets_record_uses(
    table: TableView,
    path: PathView,
    bindings: Seq<LetView>,
    given: bool,
)
    ensures
        spec_find_lets(table, path, bindings, given) matches Ok((found, after))
            ==> lets_recorded(found, path, after) && table_grows(table, after),
    decreases bindings,
{
    if bindings.len() > 0 {
        lemma_find_lets_record_uses(table, path, bindings.drop_last(), given);
        match spec_find_lets(table, path, bindings.drop_last(), given) {
            Ok((done, t1)) => {
                lemma_find_let_records_uses(t1, path, bindings.last());
                match spec_find_let(t1, path, bindings.last()) {
                    Ok((binding, t2)) => {
                        let t3 = if given {
                            with_argument(t2, path, binding.name)
                        } else {
                            t2
                        };
                        assert(table_grows(t2, t3));
                        lemma_lets_recorded_stay(done, path, t1, t3);
                        lemma_let_recorded_stays(binding, path, t2, t3);
                        assert forall|i: int| 0 <= i < done.push(binding).len() implies let_recorded(
                            #[trigger] done.push(binding)[i],
                            path,
                            t3,
                        ) by {
                            if i < done.len() {
                                assert(done.push(binding)[i] == done[i]);
                            }
                        }
                    },
                    Err(_) => {},
                }
            },
            Err(_) => {},
        }
    }
}

// ---------------------------------------------------------------------
// The pass
// ---------------------------------------------------------------------
impl DefinitionFinder {
    /// A finder.
    pub fn new() -> DefinitionFinder {
        DefinitionFinder {  }
    }

    /// Resolves the references of the module at `module`, whose tree and
    /// table the first pass made.
    pub fn visit_root(&self, built: &Root, module: &Vec<Symbol>) -> (r: Result<Root, TError>)
        ensures
            match r {
                Ok(root) => spec_find(built.table@, path_view(module@), built.ast@) == Ok::<
                    (NodeView, TableView),
                    TErrorView,
                >((root.ast@, root.table@)) && refs_recorded(
                    root.ast@,
                    path_view(module@),
                    root.table@,
                ) && table_grows(built.table@, root.table@),
                Err(e) => spec_find(built.table@, path_view(module@), built.ast@) == Err::<
                    (NodeView, TableView),
                    TErrorView,
                >(e@),
            },
    {
        let mut state = State { path: clone_path(module), table: built.table.clone() };
        proof {
            lemma_find_records_uses(built.table@, path_view(module@), built.ast@);
        }
        match self.visit(&mut state, &built.ast) {
            Ok(ast) => Ok(Root { ast, table: state.table }),
            Err(e) => Err(e),
        }
    }

    /// The definition of `name` that is nearest to `from`.
    pub fn resolve(table: &Table, from: &Vec<Symbol>, name: &String) -> (found: Option<
        Vec<Symbol>,
    >)
        ensures
            match found {
                Some(at) => spec_resolve(table@, path_view(from@), name@) == Some(
                    path_view(at@),
                ),
                None => spec_resolve(table@, path_view(from@), name@) is None,
            },
    {
        let mut search = clone_path(from);
        loop
            invariant
                spec_resolve(table@, path_view(from@), name@) == spec_resolve(
                    table@,
                    path_view(search@),
                    name@,
                ),
            decreases search.len(),
        {
            let ghost start = path_view(search@);
            assert(start.len() == search.len());
            if search.len() > 0 {
                let strip = match &search[search.len() - 1] {
                    Symbol::Anon() => true,
                    Symbol::Named(_) => false,
                };
                assert(strip == (start.last() is Anon));
                if strip {
                    leave(&mut search);
                }
            }
            let ghost base = path_view(search@);
            assert(base == search_base(start));
            assert(base.len() == search.len());
            enter(&mut search, Symbol::Named(name.clone()));
            if table.contains(&search) {
                return Some(search);
            }
            leave(&mut search);
            assert(path_view(search@) =~= base);
            assert(base.len() == search.len());
            if search.len() == 0 {
                return None;
            }
            leave(&mut search);
            assert(path_view(search@).len() == search.len());
        }
    }

    /// Resolves one reference: its definition is the nearest one that
    /// [`spec_resolve`] finds, and the table records the use.
    pub fn visit_sym(&self, state: &mut State, expr: &Sym) -> (r: Result<Node, TError>)
        ensures
            pass_result(
                r,
                *old(state),
                *final(state),
                spec_find(
                    old(state).table@,
                    path_view(old(state).path@),
                    NodeView::SymNode(expr@),
                ),
            ),
    {
        match DefinitionFinder::resolve(&state.table, &state.path, &expr.name) {
            Some(at) => {
                proof {
                    lemma_resolve_in_table(
                        state.table@,
                        path_view(state.path@),
                        expr.name@,
                    );
                }
                state.table.add_use(&at, &state.path);
                let mut info = clone_info(&expr.info);
                info.defined_at = Some(at);
                assert(info@ == defined(expr@.info, path_view(at@)));
                Ok(Node::SymNode(Sym { name: expr.name.clone(), depth: expr.depth, info }))
            },
            None => Err(
                TError::UnknownSymbol(
                    expr.name.clone(),
                    clone_info(&expr.info),
                    clone_path(&state.path),
                ),
            ),
        }
    }

    /// The pass over a tree; see [`spec_find`].
    pub fn visit(&self, state: &mut State, expr: &Node) -> (r: Result<Node, TError>)
        ensures
            pass_result(
                r,
                *old(state),
                *final(state),
                spec_find(old(state).table@, path_view(old(state).path@), expr@),
            ),
        decreases expr,
    {
        match expr {
            Node::Error(e) => Err(TError::FailedParse(e.msg.clone(), clone_info(&e.info))),
            Node::SymNode(s) => self.visit_sym(state, s),
            Node::PrimNode(p, info) => Ok(Node::PrimNode(p.clone(), clone_info(info))),
            Node::ApplyNode(a) => self.visit_apply(state, a),
            Node::AbsNode(a) => self.visit_abs(state, a),
            Node::LetNode(l) => match self.visit_let(state, l) {
                Ok(binding) => Ok(Node::LetNode(binding)),
                Err(e) => Err(e),
            },
            Node::UnOpNode(u) => self.visit_un_op(state, u),
            Node::BinOpNode(b) => self.visit_bin_op(state, b),
        }
    }

    /// The pass over bindings that stand side by side; `given` says that
    /// they are the arguments of an application.
    pub fn visit_lets(&self, state: &mut State, bindings: &Vec<Let>, given: bool) -> (r: Result<
        Vec<Let>,
        TError,
    >)
        ensures
            lets_pass_result(
                r,
                *old(state),
                *final(state),
                spec_find_lets(
                    old(state).table@,
                    path_view(old(state).path@),
                    lets_view(bindings@),
                    given,
                ),
            ),
        decreases bindings,
    {
        let ghost table = state.table@;
        let ghost path = path_view(state.path@);
        let ghost all = lets_view(bindings@);
        let mut done: Vec<Let> = Vec::new();
        let mut i: usize = 0;
        assert(all.take(0) =~= Seq::<LetView>::empty());
        assert(lets_view(done@) =~= Seq::<LetView>::empty());
        while i < bindings.len()
            invariant
                i <= bindings.len(),
                all == lets_view(bindings@),
                table == old(state).table@,
                path == path_view(old(state).path@),
                path == path_view(state.path@),
                spec_find_lets(table, path, all.take(i as int), given) == Ok::<
                    (Seq<LetView>, TableView),
                    TErrorView,
                >((lets_view(done@), state.table@)),
            decreases bindings.len() - i,
        {
            let ghost so_far = lets_view(done@);
            proof {
                assert(all.take(i as int + 1).drop_last() =~= all.take(i as int));
                assert(all.take(i as int + 1).last() == bindings[i as int]@);
            }
            match self.visit_let(state, &bindings[i]) {
                Ok(binding) => {
                    if given {
                        let mut at = clone_path(&state.path);
                        enter(&mut at, Symbol::Named(binding.name.clone()));
                        state.table.add_use(&at, &state.path);
                    }
                    done.push(binding);
                    assert(lets_view(done@) =~= so_far.push(binding@));
                },
                Err(e) => {
                    proof {
                        lemma_find_lets_fails(table, path, all, given, i as int + 1);
                    }
                    return Err(e);
                },
            }
            i += 1;
        }
        assert(all.take(i as int) =~= all);
        Ok(done)
    }

    /// The pass over an application: its arguments and its function stand
    /// in a scope without a name.
    pub fn visit_apply(&self, state: &mut State, expr: &Apply) -> (r: Result<Node, TError>)
        ensures
            pass_result(
                r,
                *old(state),
                *final(state),
                spec_find(
                    old(state).table@,
                    path_view(old(state).path@),
                    NodeView::ApplyNode(expr@),
                ),
            ),
        decreases expr,
    {
        enter(&mut state.path, Symbol::Anon());
        let args = match self.visit_lets(state, &expr.args, true) {
            Ok(args) => args,
            Err(e) => {
                return Err(e);
            },
        };
        let inner = match self.visit(state, &expr.inner) {
            Ok(inner) => inner,
            Err(e) => {
                return Err(e);
            },
        };
        leave(&mut state.path);
        assert(path_view(state.path@) =~= path_view(old(state).path@));
        Ok(Node::ApplyNode(Apply { inner: Box::new(inner), args, info: clone_info(&expr.info) }))
    }

    /// The pass over an abstraction.
    pub fn visit_abs(&self, state: &mut State, expr: &Abs) -> (r: Result<Node, TError>)
        ensures
            pass_result(
                r,
                *old(state),
                *final(state),
                spec_find(
                    old(state).table@,
                    path_view(old(state).path@),
                    NodeView::AbsNode(expr@),
                ),
            ),
        decreases expr,
    {
        let value = match self.visit(state, &expr.value) {
            Ok(value) => value,
            Err(e) => {
                return Err(e);
            },
        };
        Ok(
            Node::AbsNode(
                Abs { name: expr.name.clone(), value: Box::new(value), info: clone_info(&expr.info) },
            ),
        )
    }

    /// The pass over a binding; see [`spec_find_let`].
    pub fn visit_let(&self, state: &mut State, expr: &Let) -> (r: Result<Let, TError>)
        ensures
            let_pass_result(
                r,
                *old(state),
                *final(state),
                spec_find_let(old(state).table@, path_view(old(state).path@), expr@),
            ),
        decreases expr,
    {
        enter(&mut state.path, Symbol::Named(expr.name.clone()));
        let args = match &expr.args {
            Some(params) => match self.visit_lets(state, params, false) {
                Ok(args) => Some(args),
                Err(e) => {
                    return Err(e);
                },
            },
            None => None,
        };
        let value = match self.visit(state, &expr.value) {
            Ok(value) => value,
            Err(e) => {
                return Err(e);
            },
        };
        leave(&mut state.path);
        assert(path_view(state.path@) =~= path_view(old(state).path@));
        Ok(
            Let {
                name: expr.name.clone(),
                value: Box::new(value),
                args,
                info: clone_info(&expr.info),
            },
        )
    }

    /// The pass over an operator with one argument.
    pub fn visit_un_op(&self, state: &mut State, expr: &UnOp) -> (r: Result<Node, TError>)
        ensures
            pass_result(
                r,
                *old(state),
                *final(state),
                spec_find(
                    old(state).table@,
                    path_view(old(state).path@),
                    NodeView::UnOpNode(expr@),
                ),
            ),
        decreases expr,
    {
        let inner = match self.visit(state, &expr.inner) {
            Ok(inner) => inner,
            Err(e) => {
                return Err(e);
            },
        };
        Ok(
            Node::UnOpNode(
                UnOp { name: expr.name.clone(), inner: Box::new(inner), info: clone_info(&expr.info) },
            ),
        )
    }

    /// The pass over an operator with two arguments, left before right.
    pub fn visit_bin_op(&self, state: &mut State, expr: &BinOp) -> (r: Result<Node, TError>)
        ensures
            pass_result(
                r,
                *old(state),
                *final(state),
                spec_find(
                    old(state).table@,
                    path_view(old(state).path@),
                    NodeView::BinOpNode(expr@),
                ),
            ),
        decreases expr,
    {
        let left = match self.visit(state, &expr.left) {
            Ok(left) => left,
            Err(e) => {
                return Err(e);
            },
        };
        let right = match self.visit(state, &expr.right) {
            Ok(right) => right,
            Err(e) => {
                return Err(e);
            },
        };
        Ok(
            Node::BinOpNode(
                BinOp {
                    name: expr.name.clone(),
                    left: Box::new(left),
                    right: Box::new(right),
                    info: clone_info(&expr.info),
                },
            ),
        )
    }
}

} // verus!
