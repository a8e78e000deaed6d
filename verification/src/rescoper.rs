//! Lexical scope resolution: every reference learns how many scope frames
//! out its name is bound, and every binding learns which outer names its
//! value needs, so that a later stage can hand them over explicitly.

use crate::ast::{
    clone_info, lets_view, Abs, AbsView, Apply,
    ApplyView, BinOp, BinOpView, Info, InfoView, Let, LetView, Node, NodeView, Sym,
    SymView, UnOp, UnOpView,
};
use crate::primitives::{clone_names, names_view};
use vstd::prelude::*;

verus! {

/// An error of the scope resolver.
#[derive(Debug, PartialEq)]
pub enum ReScoperError {
    /// A parse error was found in the tree.
    FailedParse(String, Info),
}

/// The mathematical value of a [`ReScoperError`].
pub ghost enum ReScoperErrorView {
    FailedParse(Seq<char>, InfoView),
}

impl View for ReScoperError {
    type V = ReScoperErrorView;

    open spec fn view(&self) -> ReScoperErrorView {
        match self {
            ReScoperError::FailedParse(msg, info) => ReScoperErrorView::FailedParse(msg@, info@),
        }
    }
}

/// Walks a tree and resolves its scopes.
#[derive(Debug)]
pub struct ReScoper {}

impl Default for ReScoper {
    fn default() -> ReScoper {
        ReScoper {  }
    }
}

/// A scope frame: the names bound in it, in the order in which they were
/// bound.
#[derive(Debug)]
pub struct Namespace {
    pub name: String,
    pub defines: Vec<String>,
}

/// What the pass carries along: the scope frames, outermost first, and the
/// names that were referenced but are bound in none of them.
#[derive(Debug)]
pub struct State {
    pub stack: Vec<Namespace>,
    pub requires: Vec<String>,
}

/// The mathematical value of a [`State`].
pub ghost struct ScopeView {
    pub stack: Seq<Seq<Seq<char>>>,
    pub requires: Seq<Seq<char>>,
}

/// The names of scope frames.
pub open spec fn frames_view(stack: Seq<Namespace>) -> Seq<Seq<Seq<char>>> {
    Seq::new(stack.len(), |i: int| names_view(stack[i].defines@))
}

impl View for State {
    type V = ScopeView;

    open spec fn view(&self) -> ScopeView {
        ScopeView { stack: frames_view(self.stack@), requires: names_view(self.requires@) }
    }
}

/// A tree and the scopes after the pass over it.
pub type Scoped = Result<(NodeView, ScopeView), ReScoperErrorView>;

/// A binding and the scopes after the pass over it.
pub type ScopedLet = Result<(LetView, ScopeView), ReScoperErrorView>;

/// Bindings and the scopes after the pass over them.
pub type ScopedLets = Result<(Seq<LetView>, ScopeView), ReScoperErrorView>;

/// The number of frames, counted from `from`, that are passed before the
/// first one that holds `name`; `None` if no frame from there on holds it.
pub open spec fn depth_from(stack: Seq<Seq<Seq<char>>>, name: Seq<char>, from: int) -> Option<int>
    decreases stack.len() - from,
{
    if from < 0 || from >= stack.len() {
        None
    } else if stack[from].contains(name) {
        Some(from)
    } else {
        depth_from(stack, name, from + 1)
    }
}

/// The names with `name` among them: it is added unless it is there.
pub open spec fn require(names: Seq<Seq<char>>, name: Seq<char>) -> Seq<Seq<char>> {
    if names.contains(name) {
        names
    } else {
        names.push(name)
    }
}

/// The names with each of `more` among them, first to last.
pub open spec fn require_all(names: Seq<Seq<char>>, more: Seq<Seq<char>>) -> Seq<Seq<char>>
    decreases more.len(),
{
    if more.len() == 0 {
        names
    } else {
        require(require_all(names, more.drop_last()), more.last())
    }
}

/// Those of `names` that are not among `outer`, in their order.
pub open spec fn without(names: Seq<Seq<char>>, outer: Seq<Seq<char>>) -> Seq<Seq<char>>
    decreases names.len(),
{
    if names.len() == 0 {
        names
    } else if outer.contains(names.last()) {
        without(names.drop_last(), outer)
    } else {
        without(names.drop_last(), outer).push(names.last())
    }
}

/// The frames with `names` bound in the innermost of them.
pub open spec fn bind(stack: Seq<Seq<Seq<char>>>, names: Seq<Seq<char>>) -> Seq<Seq<Seq<char>>> {
    if stack.len() == 0 {
        stack
    } else {
        stack.drop_last().push(stack.last() + names)
    }
}

/// The requirement list that a binding brings along.
pub open spec fn known_requirements(info: InfoView) -> Seq<Seq<char>> {
    match info.requires {
        Some(names) => names,
        None => Seq::empty(),
    }
}

/// The pass over a tree.
pub open spec fn spec_scope(state: ScopeView, node: NodeView) -> Scoped
    decreases node,
{
    match node {
        NodeView::Error(e) => Err(ReScoperErrorView::FailedParse(e.msg, e.info)),
        NodeView::SymNode(s) => match depth_from(state.stack, s.name, 0) {
            Some(depth) => Ok(
                (NodeView::SymNode(SymView { depth: Some(depth as usize), ..s }), state),
            ),
            None => Ok(
                (
                    NodeView::SymNode(SymView { depth: None, ..s }),
                    ScopeView { requires: require(state.requires, s.name), ..state },
                ),
            ),
        },
        NodeView::PrimNode(_, _) => Ok((node, state)),
        NodeView::ApplyNode(a) => {
            let opened = ScopeView { stack: state.stack.push(Seq::empty()), ..state };
            match spec_scope_lets(opened, a.args) {
                Err(e) => Err(e),
                Ok((args, s1)) => match spec_scope(s1, *a.inner) {
                    Err(e) => Err(e),
                    Ok((inner, s2)) => Ok(
                        (
                            NodeView::ApplyNode(
                                ApplyView { inner: Box::new(inner), args, info: a.info },
                            ),
                            ScopeView { stack: s2.stack.drop_last(), ..s2 },
                        ),
                    ),
                },
            }
        },
        NodeView::AbsNode(a) => {
            let bound = ScopeView { stack: bind(state.stack, seq![a.name]), ..state };
            match spec_scope(bound, *a.value) {
                Err(e) => Err(e),
                Ok((value, s1)) => Ok(
                    (
                        NodeView::AbsNode(
                            AbsView { name: a.name, value: Box::new(value), info: a.info },
                        ),
                        s1,
                    ),
                ),
            }
        },
        NodeView::LetNode(l) => match spec_scope_let(state, l) {
            Err(e) => Err(e),
            Ok((binding, s1)) => Ok((NodeView::LetNode(binding), s1)),
        },
        NodeView::UnOpNode(u) => match spec_scope(state, *u.inner) {
            Err(e) => Err(e),
            Ok((inner, s1)) => Ok(
                (
                    NodeView::UnOpNode(
                        UnOpView { name: u.name, inner: Box::new(inner), info: u.info },
                    ),
                    s1,
                ),
            ),
        },
        NodeView::BinOpNode(b) => match spec_scope(state, *b.left) {
            Err(e) => Err(e),
            Ok((left, s1)) => match spec_scope(s1, *b.right) {
                Err(e) => Err(e),
                Ok((right, s2)) => Ok(
                    (
                        NodeView::BinOpNode(
                            BinOpView {
                                name: b.name,
                                left: Box::new(left),
                                right: Box::new(right),
                                info: b.info,
                            },
                        ),
                        s2,
                    ),
                ),
            },
        },
    }
}

/// The binding `binding` after its parameters and its value were visited
/// and `found` are the names that they need: its own requirements are those
/// of `found` that the enclosing context `outer` does not require already,
/// and it has to be called if it had to before or requires anything.
pub open spec fn scoped_binding(
    binding: LetView,
    args: Option<Seq<LetView>>,
    value: NodeView,
    found: Seq<Seq<char>>,
    outer: Seq<Seq<char>>,
) -> LetView {
    let own = without(found, outer);
    LetView {
        name: binding.name,
        value: Box::new(value),
        args,
        info: InfoView {
            requires: Some(own),
            is_function: binding.info.is_function || own.len() > 0,
            ..binding.info
        },
    }
}

/// The pass over a binding. Its name, and the requirements that it brings
/// along, are bound in the innermost frame; its parameters and its value
/// are visited with no requirements pending, and what they leave pending
/// is merged into the requirements of the enclosing context.
pub open spec fn spec_scope_let(state: ScopeView, binding: LetView) -> ScopedLet
    decreases binding,
{
    let inside = ScopeView {
        stack: bind(state.stack, seq![binding.name] + known_requirements(binding.info)),
        requires: Seq::empty(),
    };
    match binding.args {
        None => match spec_scope(inside, *binding.value) {
            Err(e) => Err(e),
            Ok((value, s2)) => Ok(
                (
                    scoped_binding(binding, None, value, s2.requires, state.requires),
                    ScopeView {
                        stack: s2.stack,
                        requires: require_all(
                            state.requires,
                            without(s2.requires, state.requires),
                        ),
                    },
                ),
            ),
        },
        Some(params) => match spec_scope_lets(inside, params) {
            Err(e) => Err(e),
            Ok((args, s1)) => match spec_scope(s1, *binding.value) {
                Err(e) => Err(e),
                Ok((value, s2)) => Ok(
                    (
                        scoped_binding(binding, Some(args), value, s2.requires, state.requires),
                        ScopeView {
                            stack: s2.stack,
                            requires: require_all(
                                state.requires,
                                without(s2.requires, state.requires),
                            ),
                        },
                    ),
                ),
            },
        },
    }
}

/// The pass over bindings that stand side by side, first to last.
pub open spec fn spec_scope_lets(state: ScopeView, bindings: Seq<LetView>) -> ScopedLets
    decreases bindings,
{
    if bindings.len() == 0 {
        Ok((Seq::empty(), state))
    } else {
        match spec_scope_lets(state, bindings.drop_last()) {
            Err(e) => Err(e),
            Ok((done, s1)) => match spec_scope_let(s1, bindings.last()) {
                Err(e) => Err(e),
                Ok((binding, s2)) => Ok((done.push(binding), s2)),
            },
        }
    }
}

/// An error among the first bindings is the error of them all.
pub proof fn lemma_scope_lets_fails(state: ScopeView, bindings: Seq<LetView>, n: int)
    requires
        0 <= n <= bindings.len(),
        spec_scope_lets(state, bindings.take(n)) is Err,
    ensures
        spec_scope_lets(state, bindings) == spec_scope_lets(state, bindings.take(n)),
    decreases bindings.len() - n,
{
    if n == bindings.len() {
        assert(bindings.take(n) =~= bindings);
    } else {
        assert(bindings.take(n + 1).drop_last() =~= bindings.take(n));
        lemma_scope_lets_fails(state, bindings, n + 1);
    }
}

/// The names that are bound before a module is read.
pub open spec fn global_names() -> Seq<Seq<char>> {
    seq!["true"@, "false"@]
}

/// The scopes in which the pass over a module begins.
pub open spec fn initial_scopes() -> ScopeView {
    ScopeView { stack: seq![global_names()], requires: Seq::empty() }
}

/// The pass over the tree of a module, and the names that it references
/// but does not declare.
pub open spec fn spec_scope_root(ast: NodeView) -> Result<
    (NodeView, Seq<Seq<char>>),
    ReScoperErrorView,
> {
    match spec_scope(initial_scopes(), ast) {
        Ok((node, after)) => Ok((node, after.requires)),
        Err(e) => Err(e),
    }
}

// ---------------------------------------------------------------------
// The pass
// ---------------------------------------------------------------------
/// What the pass promises of its result: the tree and the scopes that the
/// function `model` gives, with as many frames as before; after an error
/// the state is not to be used.
pub open spec fn scope_result(
    r: Result<Node, ReScoperError>,
    before: State,
    after: State,
    model: Scoped,
) -> bool {
    match r {
        Ok(node) => model == Ok::<(NodeView, ScopeView), ReScoperErrorView>((node@, after@))
            && after.stack.len() == before.stack.len(),
        Err(e) => model == Err::<(NodeView, ScopeView), ReScoperErrorView>(e@),
    }
}

/// The same for the pass over a binding.
pub open spec fn scope_let_result(
    r: Result<Let, ReScoperError>,
    before: State,
    after: State,
    model: ScopedLet,
) -> bool {
    match r {
        Ok(binding) => model == Ok::<(LetView, ScopeView), ReScoperErrorView>(
            (binding@, after@),
        ) && after.stack.len() == before.stack.len(),
        Err(e) => model == Err::<(LetView, ScopeView), ReScoperErrorView>(e@),
    }
}

/// The same for the pass over bindings.
pub open spec fn scope_lets_result(
    r: Result<Vec<Let>, ReScoperError>,
    before: State,
    after: State,
    model: ScopedLets,
) -> bool {
    match r {
        Ok(bindings) => model == Ok::<(Seq<LetView>, ScopeView), ReScoperErrorView>(
            (lets_view(bindings@), after@),
        ) && after.stack.len() == before.stack.len(),
        Err(e) => model == Err::<(Seq<LetView>, ScopeView), ReScoperErrorView>(e@),
    }
}

/// Whether `name` is among `names`.
pub fn holds_name(names: &Vec<String>, name: &String) -> (held: bool)
    ensures
        held == names_view(names@).contains(name@),
{
    let mut i: usize = 0;
    while i < names.len()
        invariant
            i <= names.len(),
            forall|j: int| 0 <= j < i ==> names_view(names@)[j] != name@,
        decreases names.len() - i,
    {
        if names[i] == *name {
            assert(names_view(names@)[i as int] == name@);
            return true;
        }
        i += 1;
    }
    false
}

/// Adds `name` to `names` unless it is there.
pub fn add_requirement(names: &mut Vec<String>, name: &String)
    ensures
        names_view(final(names)@) == require(names_view(old(names)@), name@),
{
    if !holds_name(names, name) {
        names.push(name.clone());
        assert(names_view(names@) =~= names_view(old(names)@).push(name@));
    }
}

/// The scope frame in which a module is read.
pub fn globals() -> (frame: Namespace)
    ensures
        names_view(frame.defines@) == global_names(),
{
    let defines = vec![String::from_str("true"), String::from_str("false")];
    assert(names_view(defines@) =~= global_names());
    Namespace { name: String::new(), defines }
}

/// Binds `names` in the innermost frame.
fn bind_names(stack: &mut Vec<Namespace>, names: Vec<String>)
    ensures
        frames_view(final(stack)@) == bind(frames_view(old(stack)@), names_view(names@)),
        final(stack).len() == old(stack).len(),
{
    let ghost before = frames_view(stack@);
    match stack.pop() {
        None => {
            assert(frames_view(stack@) =~= before);
        },
        Some(frame) => {
            let ghost rest = frames_view(stack@);
            assert(rest =~= before.drop_last());
            assert(names_view(frame.defines@) == before.last());
            let Namespace { name, defines } = frame;
            let mut defines = defines;
            let mut names = names;
            let ghost added = names_view(names@);
            let ghost had = names_view(defines@);
            defines.append(&mut names);
            assert(names_view(defines@) =~= had + added);
            stack.push(Namespace { name, defines });
            assert(frames_view(stack@) =~= rest.push(had + added));
        },
    }
}

impl ReScoper {
    /// Resolves the scopes of a module. Returns the tree and the names
    /// that it references but does not declare.
    pub fn visit_root(&self, ast: &Node) -> (r: Result<(Node, Vec<String>), ReScoperError>)
        ensures
            match r {
                Ok((node, undeclared)) => spec_scope_root(ast@) == Ok::<
                    (NodeView, Seq<Seq<char>>),
                    ReScoperErrorView,
                >((node@, names_view(undeclared@))),
                Err(e) => spec_scope_root(ast@) == Err::<
                    (NodeView, Seq<Seq<char>>),
                    ReScoperErrorView,
                >(e@),
            },
    {
        let mut state = State { stack: vec![globals()], requires: Vec::new() };
        assert(state@.stack =~= seq![global_names()]);
        assert(state@.requires =~= Seq::<Seq<char>>::empty());
        match self.visit(&mut state, ast) {
            Ok(node) => Ok((node, state.requires)),
            Err(e) => Err(e),
        }
    }

    /// The pass over a tree; see [`spec_scope`]. After an error the state
    /// is not to be used.
    pub fn visit(&self, state: &mut State, expr: &Node) -> (r: Result<Node, ReScoperError>)
        ensures
            scope_result(r, *old(state), *final(state), spec_scope(old(state)@, expr@)),
        decreases expr,
    {
        match expr {
            Node::Error(e) => Err(ReScoperError::FailedParse(e.msg.clone(), clone_info(&e.info))),
            Node::SymNode(s) => Ok(self.visit_sym(state, s)),
            Node::PrimNode(p, info) => Ok(Node::PrimNode(p.clone(), clone_info(info))),
            Node::ApplyNode(a) => self.visit_apply(state, a),
            Node::AbsNode(a) => self.visit_abs(state, a),
            Node::LetNode(l) => match self.visit_let(state, l) {
                Ok(binding) => Ok(Node::LetNode(binding)),
                Err(e) => Err(e),
            },
            Node::UnOpNode(u) => self.visit_un_op(state, u),
            Node::BinOpNode(b) => self.visit_bin_op(state, b),
        }
    }

    /// Resolves one reference: it learns its depth, or becomes a
    /// requirement.
    pub fn visit_sym(&self, state: &mut State, expr: &Sym) -> (node: Node)
        ensures
            spec_scope(old(state)@, NodeView::SymNode(expr@)) == Ok::<
                (NodeView, ScopeView),
                ReScoperErrorView,
            >((node@, final(state)@)),
            final(state).stack.len() == old(state).stack.len(),
    {
        let ghost stack = state@.stack;
        let mut look_depth: usize = 0;
        while look_depth < state.stack.len()
            invariant
                look_depth <= state.stack.len(),
                stack == state@.stack,
                *state == *old(state),
                depth_from(stack, expr.name@, 0) == depth_from(
                    stack,
                    expr.name@,
                    look_depth as int,
                ),
            decreases state.stack.len() - look_depth,
        {
            assert(stack[look_depth as int] == names_view(
                state.stack[look_depth as int].defines@,
            ));
            if holds_name(&state.stack[look_depth].defines, &expr.name) {
                return Node::SymNode(
                    Sym {
                        name: expr.name.clone(),
                        depth: Some(look_depth),
                        info: clone_info(&expr.info),
                    },
                );
            }
            look_depth += 1;
        }
        add_requirement(&mut state.requires, &expr.name);
        Node::SymNode(Sym { name: expr.name.clone(), depth: None, info: clone_info(&expr.info) })
    }

    /// The pass over bindings that stand side by side.
    pub fn visit_lets(&self, state: &mut State, bindings: &Vec<Let>) -> (r: Result<
        Vec<Let>,
        ReScoperError,
    >)
        ensures
            scope_lets_result(
                r,
                *old(state),
                *final(state),
                spec_scope_lets(old(state)@, lets_view(bindings@)),
            ),
        decreases bindings,
    {
        let ghost start = state@;
        let ghost all = lets_view(bindings@);
        let mut done: Vec<Let> = Vec::new();
        let mut i: usize = 0;
        assert(all.take(0) =~= Seq::<LetView>::empty());
        assert(lets_view(done@) =~= Seq::<LetView>::empty());
        while i < bindings.len()
            invariant
                i <= bindings.len(),
                all == lets_view(bindings@),
                start == old(state)@,
                state.stack.len() == old(state).stack.len(),
                spec_scope_lets(start, all.take(i as int)) == Ok::<
                    (Seq<LetView>, ScopeView),
                    ReScoperErrorView,
                >((lets_view(done@), state@)),
            decreases bindings.len() - i,
        {
            let ghost so_far = lets_view(done@);
            proof {
                assert(all.take(i as int + 1).drop_last() =~= all.take(i as int));
                assert(all.take(i as int + 1).last() == bindings[i as int]@);
            }
            match self.visit_let(state, &bindings[i]) {
                Ok(binding) => {
                    done.push(binding);
                    assert(lets_view(done@) =~= so_far.push(binding@));
                },
                Err(e) => {
                    proof {
                        lemma_scope_lets_fails(start, all, i as int + 1);
                    }
                    return Err(e);
                },
            }
            i += 1;
        }
        assert(all.take(i as int) =~= all);
        Ok(done)
    }

    /// The pass over an application, in a frame of its own.
    pub fn visit_apply(&self, state: &mut State, expr: &Apply) -> (r: Result<Node, ReScoperError>)
        ensures
            scope_result(
                r,
                *old(state),
                *final(state),
                spec_scope(old(state)@, NodeView::ApplyNode(expr@)),
            ),
        decreases expr,
    {
        let ghost before = state@;
        let frame = Namespace { name: String::new(), defines: Vec::new() };
        assert(names_view(frame.defines@) =~= Seq::<Seq<char>>::empty());
        state.stack.push(frame);
        assert(state@.stack =~= before.stack.push(Seq::empty()));
        let args = match self.visit_lets(state, &expr.args) {
            Ok(args) => args,
            Err(e) => {
                return Err(e);
            },
        };
        let inner = match self.visit(state, &expr.inner) {
            Ok(inner) => inner,
            Err(e) => {
                return Err(e);
            },
        };
        let ghost closing = state@;
        state.stack.pop();
        assert(state@.stack =~= closing.stack.drop_last());
        Ok(Node::ApplyNode(Apply { inner: Box::new(inner), args, info: clone_info(&expr.info) }))
    }

    /// The pass over an abstraction: its name is bound in the innermost
    /// frame.
    pub fn visit_abs(&self, state: &mut State, expr: &Abs) -> (r: Result<Node, ReScoperError>)
        ensures
            scope_result(r, *old(state), *final(state), spec_scope(old(state)@, NodeView::AbsNode(expr@))),
        decreases expr,
    {
        let names = vec![expr.name.clone()];
        assert(names_view(names@) =~= seq![expr.name@]);
        bind_names(&mut state.stack, names);
        let value = match self.visit(state, &expr.value) {
            Ok(value) => value,
            Err(e) => {
                return Err(e);
            },
        };
        Ok(
            Node::AbsNode(
                Abs { name: expr.name.clone(), value: Box::new(value), info: clone_info(&expr.info) },
            ),
        )
    }

    /// The pass over a binding; see [`spec_scope_let`].
    pub fn visit_let(&self, state: &mut State, expr: &Let) -> (r: Result<Let, ReScoperError>)
        ensures
            scope_let_result(r, *old(state), *final(state), spec_scope_let(old(state)@, expr@)),
        decreases expr,
    {
        let ghost before = state@;
        let mut names = vec![expr.name.clone()];
        match &expr.info.requires {
            Some(known) => {
                let mut known = clone_names(known);
                let ghost brought = names_view(known@);
                let ghost first = names_view(names@);
                names.append(&mut known);
                assert(names_view(names@) =~= first + brought);
                assert(first =~= seq![expr.name@]);
            },
            None => {
                assert(names_view(names@) =~= seq![expr.name@] + Seq::<Seq<char>>::empty());
            },
        }
        assert(names_view(names@) == seq![expr@.name] + known_requirements(expr@.info));
        bind_names(&mut state.stack, names);
        let mut outer: Vec<String> = Vec::new();
        assert(names_view(outer@) =~= Seq::<Seq<char>>::empty());
        std::mem::swap(&mut outer, &mut state.requires);
        assert(names_view(outer@) == before.requires);
        assert(state@ == (ScopeView {
            stack: bind(before.stack, seq![expr@.name] + known_requirements(expr@.info)),
            requires: Seq::empty(),
        }));
        let args = match &expr.args {
            Some(params) => match self.visit_lets(state, params) {
                Ok(args) => Some(args),
                Err(e) => {
                    return Err(e);
                },
            },
            None => None,
        };
        let value = match self.visit(state, &expr.value) {
            Ok(value) => value,
            Err(e) => {
                return Err(e);
            },
        };
        std::mem::swap(&mut outer, &mut state.requires);
        let found = outer;
        let ghost pending = names_view(found@);
        let ghost frames = state.stack@;
        assert(names_view(state.requires@) == before.requires);
        // The names that the value needs and the enclosing context does not
        // require already.
        let mut own: Vec<String> = Vec::new();
        let mut i: usize = 0;
        assert(names_view(own@) =~= without(pending.take(0), before.requires));
        while i < found.len()
            invariant
                i <= found.len(),
                pending == names_view(found@),
                state.stack@ == frames,
                names_view(state.requires@) == before.requires,
                names_view(own@) == without(pending.take(i as int), before.requires),
            decreases found.len() - i,
        {
            let ghost had = names_view(own@);
            proof {
                assert(pending.take(i as int + 1).drop_last() =~= pending.take(i as int));
                assert(pending.take(i as int + 1).last() == found[i as int]@);
            }
            if !holds_name(&state.requires, &found[i]) {
                own.push(found[i].clone());
                assert(names_view(own@) =~= had.push(found[i as int]@));
            }
            i += 1;
        }
        assert(pending.take(i as int) =~= pending);
        let ghost mine = names_view(own@);
        let mut k: usize = 0;
        assert(mine.take(0) =~= Seq::<Seq<char>>::empty());
        while k < own.len()
            invariant
                k <= own.len(),
                mine == names_view(own@),
                state.stack@ == frames,
                names_view(state.requires@) == require_all(before.requires, mine.take(k as int)),
            decreases own.len() - k,
        {
            proof {
                assert(mine.take(k as int + 1).drop_last() =~= mine.take(k as int));
                assert(mine.take(k as int + 1).last() == own[k as int]@);
            }
            add_requirement(&mut state.requires, &own[k]);
            k += 1;
        }
        assert(mine.take(k as int) =~= mine);
        let mut info = clone_info(&expr.info);
        info.is_function = expr.info.is_function || own.len() != 0;
        info.requires = Some(own);
        assert(info@ == (InfoView {
            requires: Some(mine),
            is_function: expr@.info.is_function || mine.len() > 0,
            ..expr@.info
        }));
        Ok(Let { name: expr.name.clone(), value: Box::new(value), args, info })
    }

    /// The pass over an operator with one argument.
    pub fn visit_un_op(&self, state: &mut State, expr: &UnOp) -> (r: Result<Node, ReScoperError>)
        ensures
            scope_result(r, *old(state), *final(state), spec_scope(old(state)@, NodeView::UnOpNode(expr@))),
        decreases expr,
    {
        let inner = match self.visit(state, &expr.inner) {
            Ok(inner) => inner,
            Err(e) => {
                return Err(e);
            },
        };
        Ok(
            Node::UnOpNode(
                UnOp { name: expr.name.clone(), inner: Box::new(inner), info: clone_info(&expr.info) },
            ),
        )
    }

    /// The pass over an operator with two arguments, left before right.
    pub fn visit_bin_op(&self, state: &mut State, expr: &BinOp) -> (r: Result<Node, ReScoperError>)
        ensures
            scope_result(
                r,
                *old(state),
                *final(state),
                spec_scope(old(state)@, NodeView::BinOpNode(expr@)),
            ),
        decreases expr,
    {
        let left = match self.visit(state, &expr.left) {
            Ok(left) => left,
            Err(e) => {
                return Err(e);
            },
        };
        let right = match self.visit(state, &expr.right) {
            Ok(right) => right,
            Err(e) => {
                return Err(e);
            },
        };
        Ok(
            Node::BinOpNode(
                BinOp {
                    name: expr.name.clone(),
                    left: Box::new(left),
                    right: Box::new(right),
                    info: clone_info(&expr.info),
                },
            ),
        )
    }
}

// ---------------------------------------------------------------------
// Every requirement is listed once
// ---------------------------------------------------------------------
/// How often `name` occurs in `names`.
pub open spec fn occurrences(names: Seq<Seq<char>>, name: Seq<char>) -> nat
    decreases names.len(),
{
    if names.len() == 0 {
        0
    } else {
        occurrences(names.drop_last(), name) + if names.last() == name {
            1nat
        } else {
            0nat
        }
    }
}

/// A name that is not listed occurs no times; a name that is listed in a
/// list without repetitions occurs once.
pub proof fn lemma_occurrences(names: Seq<Seq<char>>, name: Seq<char>)
    ensures
        !names.contains(name) ==> occurrences(names, name) == 0,
        names.contains(name) && names.no_duplicates() ==> occurrences(names, name) == 1,
    decreases names.len(),
{
    if names.len() > 0 {
        let front = names.drop_last();
        lemma_occurrences(front, name);
        if front.contains(name) {
            let i = choose|i: int| 0 <= i < front.len() && front[i] == name;
            assert(names[i] == name);
        }
        if names.contains(name) && !front.contains(name) {
            let i = choose|i: int| 0 <= i < names.len() && names[i] == name;
            if i < front.len() {
                assert(front[i] == name);
            }
        }
        if names.last() == name {
            assert(names[names.len() - 1] == name);
        }
        if names.no_duplicates() {
            assert forall|i: int, j: int|
                0 <= i < front.len() && 0 <= j < front.len() && i != j implies front[i]
                != front[j] by {
                assert(front[i] == names[i] && front[j] == names[j]);
            }
            if names.last() == name && front.contains(name) {
                let i = choose|i: int| 0 <= i < front.len() && front[i] == name;
                assert(names[i] == names[names.len() - 1]);
            }
        }
    }
}

/// `later` has no repetitions and holds every name of `earlier`.
pub open spec fn extends(earlier: Seq<Seq<char>>, later: Seq<Seq<char>>) -> bool {
    later.no_duplicates() && forall|n: Seq<char>| #[trigger]
        earlier.contains(n) ==> later.contains(n)
}

/// Free-variable idempotence: to require a name a second time changes
/// nothing.
pub proof fn lemma_require_idempotent(names: Seq<Seq<char>>, name: Seq<char>)
    ensures
        require(names, name).contains(name),
        require(require(names, name), name) == require(names, name),
{
    if !names.contains(name) {
        assert(names.push(name)[names.len() as int] == name);
    }
}

/// Requiring a name keeps a list free of repetitions and adds nothing
/// but the name.
pub proof fn lemma_require(names: Seq<Seq<char>>, name: Seq<char>)
    requires
        names.no_duplicates(),
    ensures
        extends(names, require(names, name)),
        forall|n: Seq<char>| #[trigger]
            require(names, name).contains(n) <==> names.contains(n) || n == name,
{
    lemma_require_idempotent(names, name);
    if !names.contains(name) {
        let longer = names.push(name);
        assert forall|n: Seq<char>| #[trigger] longer.contains(n) <==> names.contains(n) || n
            == name by {
            if names.contains(n) {
                let i = choose|i: int| 0 <= i < names.len() && names[i] == n;
                assert(longer[i] == n);
            }
            if longer.contains(n) {
                let i = choose|i: int| 0 <= i < longer.len() && longer[i] == n;
                if i < names.len() {
                    assert(names[i] == n);
                }
            }
        }
    }
}

/// Requiring names keeps a list free of repetitions and adds nothing but
/// the names.
pub proof fn lemma_require_all(names: Seq<Seq<char>>, more: Seq<Seq<char>>)
    requires
        names.no_duplicates(),
    ensures
        extends(names, require_all(names, more)),
        forall|n: Seq<char>| #[trigger]
            require_all(names, more).contains(n) <==> names.contains(n) || more.contains(n),
    decreases more.len(),
{
    if more.len() > 0 {
        let front = more.drop_last();
        lemma_require_all(names, front);
        lemma_require(require_all(names, front), more.last());
        assert forall|n: Seq<char>| #[trigger] more.contains(n) <==> front.contains(n) || n
            == more.last() by {
            if front.contains(n) {
                let i = choose|i: int| 0 <= i < front.len() && front[i] == n;
                assert(more[i] == n);
            }
            if more.contains(n) {
                let i = choose|i: int| 0 <= i < more.len() && more[i] == n;
                if i < front.len() {
                    assert(front[i] == n);
                }
            }
            if n == more.last() {
                assert(more[more.len() - 1] == n);
            }
        }
    }
}

/// What is left of a list without repetitions has none, and holds the
/// names of the list that are not among `outer`.
pub proof fn lemma_without(names: Seq<Seq<char>>, outer: Seq<Seq<char>>)
    requires
        names.no_duplicates(),
    ensures
        without(names, outer).no_duplicates(),
        forall|n: Seq<char>| #[trigger]
            without(names, outer).contains(n) <==> names.contains(n) && !outer.contains(n),
    decreases names.len(),
{
    if names.len() > 0 {
        let front = names.drop_last();
        assert forall|i: int, j: int|
            0 <= i < front.len() && 0 <= j < front.len() && i != j implies front[i]
            != front[j] by {
            assert(front[i] == names[i] && front[j] == names[j]);
        }
        lemma_without(front, outer);
        assert forall|n: Seq<char>| #[trigger] names.contains(n) <==> front.contains(n) || n
            == names.last() by {
            if front.contains(n) {
                let i = choose|i: int| 0 <= i < front.len() && front[i] == n;
                assert(names[i] == n);
            }
            if names.contains(n) {
                let i = choose|i: int| 0 <= i < names.len() && names[i] == n;
                if i < front.len() {
                    assert(front[i] == n);
                }
            }
            if n == names.last() {
                assert(names[names.len() - 1] == n);
            }
        }
        if front.contains(names.last()) {
            let i = choose|i: int| 0 <= i < front.len() && front[i] == names.last();
            assert(names[i] == names[names.len() - 1]);
        }
        if !outer.contains(names.last()) {
            lemma_require(without(front, outer), names.last());
        }
    }
}

/// `name` is referenced in the tree at a place where no frame binds it.
pub open spec fn free_in(node: NodeView, name: Seq<char>) -> bool
    decreases node,
{
    match node {
        NodeView::Error(_) => false,
        NodeView::SymNode(s) => s.name == name && s.depth is None,
        NodeView::PrimNode(_, _) => false,
        NodeView::ApplyNode(a) => free_in_lets(a.args, name) || free_in(*a.inner, name),
        NodeView::AbsNode(a) => free_in(*a.value, name),
        NodeView::LetNode(l) => free_in_let(l, name),
        NodeView::UnOpNode(u) => free_in(*u.inner, name),
        NodeView::BinOpNode(b) => free_in(*b.left, name) || free_in(*b.right, name),
    }
}

/// The same of a binding: of its parameters and its value.
pub open spec fn free_in_let(binding: LetView, name: Seq<char>) -> bool
    decreases binding,
{
    (binding.args matches Some(params) && free_in_lets(params, name)) || free_in(
        *binding.value,
        name,
    )
}

/// The same of one of the bindings.
pub open spec fn free_in_lets(bindings: Seq<LetView>, name: Seq<char>) -> bool
    decreases bindings,
{
    exists|i: int| 0 <= i < bindings.len() && free_in_let(#[trigger] bindings[i], name)
}

/// The requirement list of every binding in the tree has no repetitions.
pub open spec fn lists_unique(node: NodeView) -> bool
    decreases node,
{
    match node {
        NodeView::Error(_) => true,
        NodeView::SymNode(_) => true,
        NodeView::PrimNode(_, _) => true,
        NodeView::ApplyNode(a) => lists_unique_lets(a.args) && lists_unique(*a.inner),
        NodeView::AbsNode(a) => lists_unique(*a.value),
        NodeView::LetNode(l) => lists_unique_let(l),
        NodeView::UnOpNode(u) => lists_unique(*u.inner),
        NodeView::BinOpNode(b) => lists_unique(*b.left) && lists_unique(*b.right),
    }
}

/// The same of a binding, of its parameters and of its value.
pub open spec fn lists_unique_let(binding: LetView) -> bool
    decreases binding,
{
    known_requirements(binding.info).no_duplicates() && (binding.args matches Some(params)
        ==> lists_unique_lets(params)) && lists_unique(*binding.value)
}

/// The same of each of the bindings.
pub open spec fn lists_unique_lets(bindings: Seq<LetView>) -> bool
    decreases bindings,
{
    forall|i: int| 0 <= i < bindings.len() ==> lists_unique_let(#[trigger] bindings[i])
}

/// What holds of the pending requirements after a pass that began with
/// `before` pending and made `node`: they have no repetitions, none was
/// lost, and every name that is free in `node` is among them.
pub open spec fn pending_complete(
    before: Seq<Seq<char>>,
    after: Seq<Seq<char>>,
    node: NodeView,
) -> bool {
    extends(before, after) && lists_unique(node) && forall|x: Seq<char>| #[trigger]
        free_in(node, x) ==> after.contains(x)
}

/// The same of the pass over a binding. The requirements of the binding
/// itself are the names that are free in it and were not pending before.
pub open spec fn pending_complete_let(
    before: Seq<Seq<char>>,
    after: Seq<Seq<char>>,
    binding: LetView,
) -> bool {
    let own = known_requirements(binding.info);
    &&& extends(before, after)
    &&& lists_unique_let(binding)
    &&& forall|x: Seq<char>| #[trigger] free_in_let(binding, x) ==> after.contains(x)
    &&& forall|x: Seq<char>| #[trigger]
        own.contains(x) <==> free_in_let(binding, x) && !before.contains(x)
}

/// The same of the pass over bindings.
pub open spec fn pending_complete_lets(
    before: Seq<Seq<char>>,
    after: Seq<Seq<char>>,
    bindings: Seq<LetView>,
) -> bool {
    extends(before, after) && lists_unique_lets(bindings) && forall|x: Seq<char>| #[trigger]
        free_in_lets(bindings, x) ==> after.contains(x)
}

/// The requirements that a pass leaves pending; see [`pending_complete`].
pub proof fn lemma_scope_pending(state: ScopeView, node: NodeView)
    requires
        state.requires.no_duplicates(),
    ensures
        spec_scope(state, node) matches Ok((found, after)) ==> pending_complete(
            state.requires,
            after.requires,
            found,
        ) && holds_exactly_free(state.requires, after.requires, found),
    decreases node,
{
    match node {
        NodeView::Error(_) => {},
        NodeView::SymNode(s) => {
            lemma_require(state.requires, s.name);
        },
        NodeView::PrimNode(_, _) => {},
        NodeView::ApplyNode(a) => {
            let opened = ScopeView { stack: state.stack.push(Seq::empty()), ..state };
            lemma_scope_lets_pending(opened, a.args);
            match spec_scope_lets(opened, a.args) {
                Ok((args, s1)) => {
                    lemma_scope_pending(s1, *a.inner);
                    match spec_scope(s1, *a.inner) {
                        Ok((inner, s2)) => {
                            let found = NodeView::ApplyNode(
                                ApplyView { inner: Box::new(inner), args, info: a.info },
                            );
                            assert forall|x: Seq<char>| #[trigger]
                                free_in(found, x) implies s2.requires.contains(x) by {
                                assert(extends(s1.requires, s2.requires));
                                assert(pending_complete(s1.requires, s2.requires, inner));
                                if free_in_lets(args, x) {
                                    assert(s1.requires.contains(x));
                                    assert(s2.requires.contains(x));
                                } else {
                                    assert(free_in(inner, x));
                                    assert(s2.requires.contains(x));
                                }
                            }
                            assert forall|n: Seq<char>| #[trigger]
                                state.requires.contains(n) implies s2.requires.contains(n) by {
                                assert(extends(state.requires, s1.requires));
                                assert(extends(s1.requires, s2.requires));
                                assert(s1.requires.contains(n));
                            }
                            assert forall|x: Seq<char>| #[trigger]
                                s2.requires.contains(x) implies state.requires.contains(x)
                                || free_in(found, x) by {
                                assert(holds_exactly_free(s1.requires, s2.requires, inner));
                                assert(holds_exactly_free_lets(
                                    state.requires,
                                    s1.requires,
                                    args,
                                ));
                                if !free_in(inner, x) {
                                    assert(s1.requires.contains(x));
                                }
                            }
                        },
                        Err(_) => {},
                    }
                },
                Err(_) => {},
            }
        },
        NodeView::AbsNode(a) => {
            let bound = ScopeView { stack: bind(state.stack, seq![a.name]), ..state };
            lemma_scope_pending(bound, *a.value);
            match spec_scope(bound, *a.value) {
                Ok((value, s1)) => {
                    let found = NodeView::AbsNode(
                        AbsView { name: a.name, value: Box::new(value), info: a.info },
                    );
                    assert forall|x: Seq<char>| #[trigger]
                        free_in(found, x) implies s1.requires.contains(x) by {
                        assert(free_in(value, x));
                    }
                    assert forall|x: Seq<char>| #[trigger]
                        s1.requires.contains(x) implies state.requires.contains(x) || free_in(
                        found,
                        x,
                    ) by {
                        if !state.requires.contains(x) {
                            assert(free_in(value, x));
                        }
                    }
                },
                Err(_) => {},
            }
        },
        NodeView::LetNode(l) => {
            lemma_scope_let_pending(state, l);
            match spec_scope_let(state, l) {
                Ok((binding, s1)) => {
                    let found = NodeView::LetNode(binding);
                    assert forall|x: Seq<char>| #[trigger]
                        free_in(found, x) implies s1.requires.contains(x) by {
                        assert(free_in_let(binding, x));
                    }
                    assert forall|x: Seq<char>| #[trigger]
                        s1.requires.contains(x) implies state.requires.contains(x) || free_in(
                        found,
                        x,
                    ) by {
                        if !state.requires.contains(x) {
                            assert(free_in_let(binding, x));
                        }
                    }
                },
                Err(_) => {},
            }
        },
        NodeView::UnOpNode(u) => {
            lemma_scope_pending(state, *u.inner);
            match spec_scope(state, *u.inner) {
                Ok((inner, s1)) => {
                    let found = NodeView::UnOpNode(
                        UnOpView { name: u.name, inner: Box::new(inner), info: u.info },
                    );
                    assert forall|x: Seq<char>| #[trigger]
                        free_in(found, x) implies s1.requires.contains(x) by {
                        assert(free_in(inner, x));
                    }
                    assert forall|x: Seq<char>| #[trigger]
                        s1.requires.contains(x) implies state.requires.contains(x) || free_in(
                        found,
                        x,
                    ) by {
                        if !state.requires.contains(x) {
                            assert(free_in(inner, x));
                        }
                    }
                },
                Err(_) => {},
            }
        },
        NodeView::BinOpNode(b) => {
            lemma_scope_pending(state, *b.left);
            match spec_scope(state, *b.left) {
                Ok((left, s1)) => {
                    lemma_scope_pending(s1, *b.right);
                    match spec_scope(s1, *b.right) {
                        Ok((right, s2)) => {
                            let found = NodeView::BinOpNode(
                                BinOpView {
                                    name: b.name,
                                    left: Box::new(left),
                                    right: Box::new(right),
                                    info: b.info,
                                },
                            );
                            assert forall|x: Seq<char>| #[trigger]
                                free_in(found, x) implies s2.requires.contains(x) by {
                                assert(extends(s1.requires, s2.requires));
                                assert(pending_complete(s1.requires, s2.requires, right));
                                if free_in(left, x) {
                                    assert(s1.requires.contains(x));
                                    assert(s2.requires.contains(x));
                                } else {
                                    assert(free_in(right, x));
                                    assert(s2.requires.contains(x));
                                }
                            }
                            assert forall|n: Seq<char>| #[trigger]
                                state.requires.contains(n) implies s2.requires.contains(n) by {
                                assert(extends(state.requires, s1.requires));
                                assert(extends(s1.requires, s2.requires));
                                assert(s1.requires.contains(n));
                            }
                            assert forall|x: Seq<char>| #[trigger]
                                s2.requires.contains(x) implies state.requires.contains(x)
                                || free_in(found, x) by {
                                assert(holds_exactly_free(s1.requires, s2.requires, right));
                                assert(holds_exactly_free(state.requires, s1.requires, left));
                                if !free_in(right, x) {
                                    assert(s1.requires.contains(x));
                                }
                            }
                        },
                        Err(_) => {},
                    }
                },
                Err(_) => {},
            }
        },
    }
}

/// Nothing is pending after a pass but what was pending before it and
/// what is free in the tree that it made.
pub open spec fn holds_exactly_free(
    before: Seq<Seq<char>>,
    after: Seq<Seq<char>>,
    node: NodeView,
) -> bool {
    forall|x: Seq<char>| #[trigger] after.contains(x) ==> before.contains(x) || free_in(node, x)
}

/// The same of the pass over a binding.
pub open spec fn holds_exactly_free_let(
    before: Seq<Seq<char>>,
    after: Seq<Seq<char>>,
    binding: LetView,
) -> bool {
    forall|x: Seq<char>| #[trigger]
        after.contains(x) ==> before.contains(x) || free_in_let(binding, x)
}

/// The same of the pass over bindings.
pub open spec fn holds_exactly_free_lets(
    before: Seq<Seq<char>>,
    after: Seq<Seq<char>>,
    bindings: Seq<LetView>,
) -> bool {
    forall|x: Seq<char>| #[trigger]
        after.contains(x) ==> before.contains(x) || free_in_lets(bindings, x)
}

/// The requirements that the pass over a binding leaves pending.
pub proof fn lemma_scope_let_pending(state: ScopeView, binding: LetView)
    requires
        state.requires.no_duplicates(),
    ensures
        spec_scope_let(state, binding) matches Ok((found, after)) ==> pending_complete_let(
            state.requires,
            after.requires,
            found,
        ) && holds_exactly_free_let(state.requires, after.requires, found),
    decreases binding,
{
    let inside = ScopeView {
        stack: bind(state.stack, seq![binding.name] + known_requirements(binding.info)),
        requires: Seq::empty(),
    };
    let outer = state.requires;
    match binding.args {
        None => {
            lemma_scope_pending(inside, *binding.value);
            match spec_scope(inside, *binding.value) {
                Ok((value, s2)) => {
                    lemma_without(s2.requires, outer);
                    lemma_require_all(outer, without(s2.requires, outer));
                    let found = scoped_binding(binding, None, value, s2.requires, outer);
                    let after = require_all(outer, without(s2.requires, outer));
                    assert forall|x: Seq<char>| #[trigger] free_in_let(found, x) implies after.contains(x) by {
                        assert(free_in(value, x));
                        assert(s2.requires.contains(x));
                        if outer.contains(x) {
                            assert(after.contains(x));
                        } else {
                            assert(without(s2.requires, outer).contains(x));
                            assert(after.contains(x));
                        }
                    }
                },
                Err(_) => {},
            }
        },
        Some(params) => {
            lemma_scope_lets_pending(inside, params);
            match spec_scope_lets(inside, params) {
                Ok((args, s1)) => {
                    lemma_scope_pending(s1, *binding.value);
                    match spec_scope(s1, *binding.value) {
                        Ok((value, s2)) => {
                            lemma_without(s2.requires, outer);
                            lemma_require_all(outer, without(s2.requires, outer));
                            let found = scoped_binding(
                                binding,
                                Some(args),
                                value,
                                s2.requires,
                                outer,
                            );
                            let after = require_all(outer, without(s2.requires, outer));
                            assert forall|x: Seq<char>| #[trigger]
                                free_in_let(found, x) implies after.contains(x) by {
                                assert(extends(s1.requires, s2.requires));
                                assert(pending_complete(s1.requires, s2.requires, value));
                                if free_in_lets(args, x) {
                                    assert(s1.requires.contains(x));
                                    assert(s2.requires.contains(x));
                                } else {
                                    assert(free_in(value, x));
                                    assert(s2.requires.contains(x));
                                }
                                if !outer.contains(x) {
                                    assert(without(s2.requires, outer).contains(x));
                                }
                            }
                        },
                        Err(_) => {},
                    }
                },
                Err(_) => {},
            }
        },
    }
}

/// The requirements that the pass over bindings leaves pending.
pub proof fn lemma_scope_lets_pending(state: ScopeView, bindings: Seq<LetView>)
    requires
        state.requires.no_duplicates(),
    ensures
        spec_scope_lets(state, bindings) matches Ok((found, after)) ==> pending_complete_lets(
            state.requires,
            after.requires,
            found,
        ) && holds_exactly_free_lets(state.requires, after.requires, found),
    decreases bindings,
{
    if bindings.len() > 0 {
        lemma_scope_lets_pending(state, bindings.drop_last());
        match spec_scope_lets(state, bindings.drop_last()) {
            Ok((done, s1)) => {
                lemma_scope_let_pending(s1, bindings.last());
                match spec_scope_let(s1, bindings.last()) {
                    Ok((binding, s2)) => {
                        let all = done.push(binding);
                        assert(all[done.len() as int] == binding);
                        assert forall|i: int| 0 <= i < all.len() implies lists_unique_let(
                            #[trigger] all[i],
                        ) by {
                            if i < done.len() {
                                assert(all[i] == done[i]);
                            }
                        }
                        assert forall|x: Seq<char>| #[trigger]
                            free_in_lets(all, x) implies s2.requires.contains(x) by {
                            let i = choose|i: int|
                                0 <= i < all.len() && free_in_let(#[trigger] all[i], x);
                            if i < done.len() {
                                assert(all[i] == done[i]);
                                assert(free_in_lets(done, x));
                            }
                        }
                        assert forall|x: Seq<char>| #[trigger]
                            s2.requires.contains(x) implies state.requires.contains(x)
                            || free_in_lets(all, x) by {
                            if free_in_let(binding, x) {
                                assert(free_in_let(all[done.len() as int], x));
                            } else if s1.requires.contains(x) && !state.requires.contains(x) {
                                let i = choose|i: int|
                                    0 <= i < done.len() && free_in_let(#[trigger] done[i], x);
                                assert(all[i] == done[i]);
                            }
                        }
                    },
                    Err(_) => {},
                }
            },
            Err(_) => {},
        }
    }
}

/// A name that is referenced inside a binding where no frame binds it, be
/// it once or many times, is listed exactly once among the requirements
/// that are pending after the binding. Among the requirements of the
/// binding itself it is listed exactly once too, unless the enclosing
/// context required it already: then the binding does not list it.
pub proof fn lemma_required_once(state: ScopeView, binding: LetView, name: Seq<char>)
    requires
        state.requires.no_duplicates(),
        spec_scope_let(state, binding) matches Ok((found, after)) && free_in_let(found, name),
    ensures
        spec_scope_let(state, binding) matches Ok((found, after)) && occurrences(
            after.requires,
            name,
        ) == 1 && occurrences(known_requirements(found.info), name) == if state.requires.contains(
            name,
        ) {
            0nat
        } else {
            1nat
        },
{
    lemma_scope_let_pending(state, binding);
    match spec_scope_let(state, binding) {
        Ok((found, after)) => {
            lemma_occurrences(after.requires, name);
            lemma_occurrences(known_requirements(found.info), name);
        },
        Err(_) => {},
    }
}

} // verus!
