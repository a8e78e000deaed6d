//! The syntax tree, the paths that address its bindings, and the metadata
//! that the passes attach to its nodes.

use crate::location::{Loc, LocView};
use crate::primitives::{clone_names, names_view, Prim, PrimView};
use vstd::prelude::*;

verus! {

/// One segment of a [`Path`].
#[derive(Debug, PartialEq, Eq, PartialOrd, Ord, Hash)]
pub enum Symbol {
    /// The scope that an application opens for its arguments.
    Anon(),
    Named(String),
}

/// The place of a definition in the tree of bindings, outermost first.
pub type Path = Vec<Symbol>;

/// The mathematical value of a [`Symbol`].
pub ghost enum SymbolView {
    Anon,
    Named(Seq<char>),
}

/// The mathematical value of a [`Path`].
pub type PathView = Seq<SymbolView>;

impl View for Symbol {
    type V = SymbolView;

    open spec fn view(&self) -> SymbolView {
        match self {
            Symbol::Anon() => SymbolView::Anon,
            Symbol::Named(name) => SymbolView::Named(name@),
        }
    }
}

/// The value of a path held as a sequence of symbols.
pub open spec fn path_view(path: Seq<Symbol>) -> PathView {
    Seq::new(path.len(), |i: int| path[i]@)
}

/// What the passes know of a node. Two records always compare equal with
/// `==`: the metadata plays no part in the comparison of trees.
#[derive(Debug)]
pub struct Info {
    pub loc: Option<Loc>,
    /// The type that the source gave the node.
    pub ty: Option<Box<Node>>,
    /// Where the name that the node uses or introduces is defined.
    pub defined_at: Option<Path>,
    /// For a binding: the outer names that its value needs.
    pub requires: Option<Vec<String>>,
    /// For a binding: whether it has to be called to give its value.
    pub is_function: bool,
}

/// A reference to a name.
#[derive(Debug, PartialEq, Eq)]
pub struct Sym {
    pub name: String,
    /// The number of scope frames passed before the one that holds the
    /// name; `None` while unresolved, and for a name that no frame holds.
    pub depth: Option<usize>,
    pub info: Info,
}

/// A parse error kept in the tree.
#[derive(Debug, PartialEq, Eq)]
pub struct ErrNode {
    pub msg: String,
    pub info: Info,
}

/// An application of a function to arguments, each of them a binding.
#[derive(Debug, PartialEq, Eq)]
pub struct Apply {
    pub inner: Box<Node>,
    pub args: Vec<Let>,
    pub info: Info,
}

/// A name abstracted over in a value.
#[derive(Debug, PartialEq, Eq)]
pub struct Abs {
    pub name: String,
    pub value: Box<Node>,
    pub info: Info,
}

/// A binding of a name, with parameters if it is a function.
#[derive(Debug, PartialEq, Eq)]
pub struct Let {
    pub name: String,
    pub value: Box<Node>,
    pub args: Option<Vec<Let>>,
    pub info: Info,
}

/// An operator before its argument.
#[derive(Debug, PartialEq, Eq)]
pub struct UnOp {
    pub name: String,
    pub inner: Box<Node>,
    pub info: Info,
}

/// An operator between its arguments.
#[derive(Debug, PartialEq, Eq)]
pub struct BinOp {
    pub name: String,
    pub left: Box<Node>,
    pub right: Box<Node>,
    pub info: Info,
}

/// A syntax tree.
#[derive(Debug, PartialEq, Eq)]
pub enum Node {
    Error(ErrNode),
    SymNode(Sym),
    PrimNode(Prim, Info),
    ApplyNode(Apply),
    AbsNode(Abs),
    LetNode(Let),
    UnOpNode(UnOp),
    BinOpNode(BinOp),
}

/// The mathematical value of an [`Info`].
pub ghost struct InfoView {
    pub loc: Option<LocView>,
    pub ty: Option<Box<NodeView>>,
    pub defined_at: Option<PathView>,
    pub requires: Option<Seq<Seq<char>>>,
    pub is_function: bool,
}

/// The mathematical value of a [`Sym`].
pub ghost struct SymView {
    pub name: Seq<char>,
    pub depth: Option<usize>,
    pub info: InfoView,
}

/// The mathematical value of an [`ErrNode`].
pub ghost struct ErrNodeView {
    pub msg: Seq<char>,
    pub info: InfoView,
}

/// The mathematical value of an [`Apply`].
pub ghost struct ApplyView {
    pub inner: Box<NodeView>,
    pub args: Seq<LetView>,
    pub info: InfoView,
}

/// The mathematical value of an [`Abs`].
pub ghost struct AbsView {
    pub name: Seq<char>,
    pub value: Box<NodeView>,
    pub info: InfoView,
}

/// The mathematical value of a [`Let`].
pub ghost struct LetView {
    pub name: Seq<char>,
    pub value: Box<NodeView>,
    pub args: Option<Seq<LetView>>,
    pub info: InfoView,
}

/// The mathematical value of an [`UnOp`].
pub ghost struct UnOpView {
    pub name: Seq<char>,
    pub inner: Box<NodeView>,
    pub info: InfoView,
}

/// The mathematical value of a [`BinOp`].
pub ghost struct BinOpView {
    pub name: Seq<char>,
    pub left: Box<NodeView>,
    pub right: Box<NodeView>,
    pub info: InfoView,
}

/// The mathematical value of a [`Node`].
pub ghost enum NodeView {
    Error(ErrNodeView),
    SymNode(SymView),
    PrimNode(PrimView, InfoView),
    ApplyNode(ApplyView),
    AbsNode(AbsView),
    LetNode(LetView),
    UnOpNode(UnOpView),
    BinOpNode(BinOpView),
}

/// The metadata of a node of which nothing is known yet.
pub open spec fn no_info() -> InfoView {
    InfoView { loc: None, ty: None, defined_at: None, requires: None, is_function: false }
}

/// The value of a metadata record.
pub open spec fn info_view(info: Info) -> InfoView
    decreases info,
{
    InfoView {
        loc: match info.loc {
            Some(loc) => Some(loc@),
            None => None,
        },
        ty: match info.ty {
            Some(ty) => Some(Box::new(node_view(*ty))),
            None => None,
        },
        defined_at: match info.defined_at {
            Some(path) => Some(path_view(path@)),
            None => None,
        },
        requires: match info.requires {
            Some(names) => Some(names_view(names@)),
            None => None,
        },
        is_function: info.is_function,
    }
}

/// The value of a binding.
pub open spec fn let_view(binding: Let) -> LetView
    decreases binding,
{
    LetView {
        name: binding.name@,
        value: Box::new(node_view(*binding.value)),
        args: match binding.args {
            Some(args) => Some(lets_view(args@)),
            None => None,
        },
        info: info_view(binding.info),
    }
}

/// The values of a sequence of bindings.
pub open spec fn lets_view(bindings: Seq<Let>) -> Seq<LetView>
    decreases bindings,
{
    Seq::new(
        bindings.len(),
        |i: int|
            if 0 <= i < bindings.len() {
                let_view(bindings[i])
            } else {
                arbitrary()
            },
    )
}

/// The value of a tree.
pub open spec fn node_view(node: Node) -> NodeView
    decreases node,
{
    match node {
        Node::Error(e) => NodeView::Error(ErrNodeView { msg: e.msg@, info: info_view(e.info) }),
        Node::SymNode(s) => NodeView::SymNode(
            SymView { name: s.name@, depth: s.depth, info: info_view(s.info) },
        ),
        Node::PrimNode(p, info) => NodeView::PrimNode(p@, info_view(info)),
        Node::ApplyNode(a) => NodeView::ApplyNode(
            ApplyView {
                inner: Box::new(node_view(*a.inner)),
                args: lets_view(a.args@),
                info: info_view(a.info),
            },
        ),
        Node::AbsNode(a) => NodeView::AbsNode(
            AbsView {
                name: a.name@,
                value: Box::new(node_view(*a.value)),
                info: info_view(a.info),
            },
        ),
        Node::LetNode(l) => NodeView::LetNode(
            LetView {
                name: l.name@,
                value: Box::new(node_view(*l.value)),
                args: match l.args {
                    Some(args) => Some(lets_view(args@)),
                    None => None,
                },
                info: info_view(l.info),
            },
        ),
        Node::UnOpNode(u) => NodeView::UnOpNode(
            UnOpView {
                name: u.name@,
                inner: Box::new(node_view(*u.inner)),
                info: info_view(u.info),
            },
        ),
        Node::BinOpNode(b) => NodeView::BinOpNode(
            BinOpView {
                name: b.name@,
                left: Box::new(node_view(*b.left)),
                right: Box::new(node_view(*b.right)),
                info: info_view(b.info),
            },
        ),
    }
}

impl View for Info {
    type V = InfoView;

    open spec fn view(&self) -> InfoView {
        info_view(*self)
    }
}

impl View for Let {
    type V = LetView;

    open spec fn view(&self) -> LetView {
        let_view(*self)
    }
}

impl View for Node {
    type V = NodeView;

    open spec fn view(&self) -> NodeView {
        node_view(*self)
    }
}

impl View for Sym {
    type V = SymView;

    open spec fn view(&self) -> SymView {
        SymView { name: self.name@, depth: self.depth, info: self.info@ }
    }
}

impl View for ErrNode {
    type V = ErrNodeView;

    open spec fn view(&self) -> ErrNodeView {
        ErrNodeView { msg: self.msg@, info: self.info@ }
    }
}

impl View for Apply {
    type V = ApplyView;

    open spec fn view(&self) -> ApplyView {
        ApplyView { inner: Box::new(self.inner@), args: lets_view(self.args@), info: self.info@ }
    }
}

impl View for Abs {
    type V = AbsView;

    open spec fn view(&self) -> AbsView {
        AbsView { name: self.name@, value: Box::new(self.value@), info: self.info@ }
    }
}

impl View for UnOp {
    type V = UnOpView;

    open spec fn view(&self) -> UnOpView {
        UnOpView { name: self.name@, inner: Box::new(self.inner@), info: self.info@ }
    }
}

impl View for BinOp {
    type V = BinOpView;

    open spec fn view(&self) -> BinOpView {
        BinOpView {
            name: self.name@,
            left: Box::new(self.left@),
            right: Box::new(self.right@),
            info: self.info@,
        }
    }
}

impl PartialEq for Info {
    fn eq(&self, other: &Info) -> (equal: bool) {
        true
    }
}

impl vstd::std_specs::cmp::PartialEqSpecImpl for Info {
    open spec fn obeys_eq_spec() -> bool {
        true
    }

    open spec fn eq_spec(&self, other: &Info) -> bool {
        true
    }
}

impl Eq for Info {

}

impl Default for Info {
    fn default() -> (info: Info)
        ensures
            info@ == no_info(),
    {
        Info { loc: None, ty: None, defined_at: None, requires: None, is_function: false }
    }
}

/// A copy of a path segment.
pub fn clone_symbol(symbol: &Symbol) -> (copy: Symbol)
    ensures
        copy@ == symbol@,
{
    match symbol {
        Symbol::Anon() => Symbol::Anon(),
        Symbol::Named(name) => Symbol::Named(name.clone()),
    }
}

impl Clone for Symbol {
    fn clone(&self) -> (copy: Symbol)
        ensures
            copy@ == self@,
    {
        clone_symbol(self)
    }
}

/// A copy of a path.
pub fn clone_path(path: &Vec<Symbol>) -> (copy: Vec<Symbol>)
    ensures
        path_view(copy@) == path_view(path@),
{
    let mut copy: Vec<Symbol> = Vec::new();
    let mut i: usize = 0;
    while i < path.len()
        invariant
            i <= path.len(),
            copy.len() == i,
            forall|j: int| 0 <= j < i ==> copy[j]@ == path[j]@,
        decreases path.len() - i,
    {
        copy.push(clone_symbol(&path[i]));
        i += 1;
    }
    assert(path_view(copy@) =~= path_view(path@));
    copy
}

/// A copy of a metadata record.
pub fn clone_info(info: &Info) -> (copy: Info)
    ensures
        copy@ == info@,
    decreases info,
{
    Info {
        loc: match &info.loc {
            Some(loc) => Some(loc.clone()),
            None => None,
        },
        ty: match &info.ty {
            Some(ty) => Some(Box::new(clone_node(ty))),
            None => None,
        },
        defined_at: match &info.defined_at {
            Some(path) => Some(clone_path(path)),
            None => None,
        },
        requires: match &info.requires {
            Some(names) => Some(clone_names(names)),
            None => None,
        },
        is_function: info.is_function,
    }
}

/// A copy of a binding.
pub fn clone_let(binding: &Let) -> (copy: Let)
    ensures
        copy@ == binding@,
    decreases binding,
{
    Let {
        name: binding.name.clone(),
        value: Box::new(clone_node(&binding.value)),
        args: match &binding.args {
            Some(args) => Some(clone_lets(args)),
            None => None,
        },
        info: clone_info(&binding.info),
    }
}

/// A copy of a list of bindings.
pub fn clone_lets(bindings: &Vec<Let>) -> (copy: Vec<Let>)
    ensures
        lets_view(copy@) == lets_view(bindings@),
    decreases bindings,
{
    let mut copy: Vec<Let> = Vec::new();
    let mut i: usize = 0;
    while i < bindings.len()
        invariant
            i <= bindings.len(),
            copy.len() == i,
            forall|j: int| 0 <= j < i ==> copy[j]@ == bindings[j]@,
        decreases bindings.len() - i,
    {
        copy.push(clone_let(&bindings[i]));
        i += 1;
    }
    assert(lets_view(copy@) =~= lets_view(bindings@));
    copy
}

/// A copy of a tree.
pub fn clone_node(node: &Node) -> (copy: Node)
    ensures
        copy@ == node@,
    decreases node,
{
    match node {
        Node::Error(e) => Node::Error(ErrNode { msg: e.msg.clone(), info: clone_info(&e.info) }),
        Node::SymNode(s) => Node::SymNode(
            Sym { name: s.name.clone(), depth: s.depth, info: clone_info(&s.info) },
        ),
        Node::PrimNode(p, info) => Node::PrimNode(p.clone(), clone_info(info)),
        Node::ApplyNode(a) => Node::ApplyNode(
            Apply {
                inner: Box::new(clone_node(&a.inner)),
                args: clone_lets(&a.args),
                info: clone_info(&a.info),
            },
        ),
        Node::AbsNode(a) => Node::AbsNode(
            Abs {
                name: a.name.clone(),
                value: Box::new(clone_node(&a.value)),
                info: clone_info(&a.info),
            },
        ),
        Node::LetNode(l) => Node::LetNode(clone_let(l)),
        Node::UnOpNode(u) => Node::UnOpNode(
            UnOp {
                name: u.name.clone(),
                inner: Box::new(clone_node(&u.inner)),
                info: clone_info(&u.info),
            },
        ),
        Node::BinOpNode(b) => Node::BinOpNode(
            BinOp {
                name: b.name.clone(),
                left: Box::new(clone_node(&b.left)),
                right: Box::new(clone_node(&b.right)),
                info: clone_info(&b.info),
            },
        ),
    }
}

impl Clone for Info {
    fn clone(&self) -> (copy: Info)
        ensures
            copy@ == self@,
    {
        clone_info(self)
    }
}

impl Clone for Let {
    fn clone(&self) -> (copy: Let)
        ensures
            copy@ == self@,
    {
        clone_let(self)
    }
}

impl Clone for Node {
    fn clone(&self) -> (copy: Node)
        ensures
            copy@ == self@,
    {
        clone_node(self)
    }
}

impl Clone for Sym {
    fn clone(&self) -> (copy: Sym)
        ensures
            copy@ == self@,
    {
        Sym { name: self.name.clone(), depth: self.depth, info: clone_info(&self.info) }
    }
}

/// The metadata of a tree's root.
pub open spec fn info_of(node: NodeView) -> InfoView {
    match node {
        NodeView::Error(e) => e.info,
        NodeView::SymNode(s) => s.info,
        NodeView::PrimNode(_, info) => info,
        NodeView::ApplyNode(a) => a.info,
        NodeView::AbsNode(a) => a.info,
        NodeView::LetNode(l) => l.info,
        NodeView::UnOpNode(u) => u.info,
        NodeView::BinOpNode(b) => b.info,
    }
}

/// The tree with the metadata of its root replaced.
pub open spec fn with_info(node: NodeView, info: InfoView) -> NodeView {
    match node {
        NodeView::Error(e) => NodeView::Error(ErrNodeView { info, ..e }),
        NodeView::SymNode(s) => NodeView::SymNode(SymView { info, ..s }),
        NodeView::PrimNode(p, _) => NodeView::PrimNode(p, info),
        NodeView::ApplyNode(a) => NodeView::ApplyNode(ApplyView { info, ..a }),
        NodeView::AbsNode(a) => NodeView::AbsNode(AbsView { info, ..a }),
        NodeView::LetNode(l) => NodeView::LetNode(LetView { info, ..l }),
        NodeView::UnOpNode(u) => NodeView::UnOpNode(UnOpView { info, ..u }),
        NodeView::BinOpNode(b) => NodeView::BinOpNode(BinOpView { info, ..b }),
    }
}

impl Node {
    /// A copy of the metadata of the root.
    pub fn get_info(&self) -> (info: Info)
        ensures
            info@ == info_of(self@),
    {
        match self {
            Node::Error(e) => clone_info(&e.info),
            Node::SymNode(s) => clone_info(&s.info),
            Node::PrimNode(_, info) => clone_info(info),
            Node::ApplyNode(a) => clone_info(&a.info),
            Node::AbsNode(a) => clone_info(&a.info),
            Node::LetNode(l) => clone_info(&l.info),
            Node::UnOpNode(u) => clone_info(&u.info),
            Node::BinOpNode(b) => clone_info(&b.info),
        }
    }

    /// The tree with the metadata of its root replaced.
    pub fn set_info(self, info: Info) -> (node: Node)
        ensures
            node@ == with_info(self@, info@),
    {
        match self {
            Node::Error(e) => Node::Error(ErrNode { msg: e.msg, info }),
            Node::SymNode(s) => Node::SymNode(Sym { name: s.name, depth: s.depth, info }),
            Node::PrimNode(p, _) => Node::PrimNode(p, info),
            Node::ApplyNode(a) => Node::ApplyNode(Apply { inner: a.inner, args: a.args, info }),
            Node::AbsNode(a) => Node::AbsNode(Abs { name: a.name, value: a.value, info }),
            Node::LetNode(l) => Node::LetNode(
                Let { name: l.name, value: l.value, args: l.args, info },
            ),
            Node::UnOpNode(u) => Node::UnOpNode(UnOp { name: u.name, inner: u.inner, info }),
            Node::BinOpNode(b) => Node::BinOpNode(
                BinOp { name: b.name, left: b.left, right: b.right, info },
            ),
        }
    }
}

impl Sym {
    /// A reference to `name` of which nothing else is known.
    pub fn new(name: String) -> (sym: Sym)
        ensures
            sym@ == (SymView { name: name@, depth: None, info: no_info() }),
    {
        Sym { name, depth: None, info: Info::default() }
    }

    /// The tree that consists of this node.
    pub fn into_node(self) -> (node: Node)
        ensures
            node@ == NodeView::SymNode(self@),
    {
        Node::SymNode(self)
    }

    /// The binding that an argument list makes of a bare name: the name,
    /// bound to a reference to itself.
    pub fn as_let(self) -> (binding: Let)
        ensures
            binding@ == sym_as_let(self@),
    {
        let name = self.name.clone();
        let info = clone_info(&self.info);
        Let { name, value: Box::new(Node::SymNode(self)), args: None, info }
    }
}

/// The binding that an argument list makes of a bare name.
pub open spec fn sym_as_let(sym: SymView) -> LetView {
    LetView { name: sym.name, value: Box::new(NodeView::SymNode(sym)), args: None, info: sym.info }
}

impl ErrNode {
    /// The tree that consists of this node.
    pub fn into_node(self) -> (node: Node)
        ensures
            node@ == NodeView::Error(self@),
    {
        Node::Error(self)
    }
}

impl Apply {
    /// The tree that consists of this node.
    pub fn into_node(self) -> (node: Node)
        ensures
            node@ == NodeView::ApplyNode(self@),
    {
        Node::ApplyNode(self)
    }
}

impl Abs {
    /// The tree that consists of this node.
    pub fn into_node(self) -> (node: Node)
        ensures
            node@ == NodeView::AbsNode(self@),
    {
        Node::AbsNode(self)
    }
}

impl Let {
    /// The tree that consists of this node.
    pub fn into_node(self) -> (node: Node)
        ensures
            node@ == NodeView::LetNode(self@),
    {
        Node::LetNode(self)
    }
}

impl UnOp {
    /// The tree that consists of this node.
    pub fn into_node(self) -> (node: Node)
        ensures
            node@ == NodeView::UnOpNode(self@),
    {
        Node::UnOpNode(self)
    }
}

impl BinOp {
    /// The tree that consists of this node.
    pub fn into_node(self) -> (node: Node)
        ensures
            node@ == NodeView::BinOpNode(self@),
    {
        Node::BinOpNode(self)
    }
}

impl Prim {
    /// The literal as a tree.
    pub fn into_node(self) -> (node: Node)
        ensures
            node@ == NodeView::PrimNode(self@, no_info()),
    {
        Node::PrimNode(self, Info::default())
    }
}

/// The text of a path segment; an anonymous segment is written `?`.
pub open spec fn symbol_name(symbol: SymbolView) -> Seq<char> {
    match symbol {
        SymbolView::Named(name) => name,
        SymbolView::Anon => "?"@,
    }
}

/// The segments of a path with `between` between them.
pub open spec fn joined_path(path: PathView, between: Seq<char>) -> Seq<char>
    decreases path.len(),
{
    if path.len() == 0 {
        Seq::empty()
    } else if path.len() == 1 {
        symbol_name(path[0])
    } else {
        joined_path(path.drop_last(), between) + between + symbol_name(path.last())
    }
}

/// Writes the segments of a path with `between` between them.
pub fn join_path(path: &Vec<Symbol>, between: &str) -> (text: String)
    ensures
        text@ == joined_path(path_view(path@), between@),
{
    let ghost all = path_view(path@);
    let mut text = String::new();
    let mut i: usize = 0;
    assert(all.take(0) =~= Seq::<SymbolView>::empty());
    while i < path.len()
        invariant
            i <= path.len(),
            all == path_view(path@),
            text@ == joined_path(all.take(i as int), between@),
        decreases path.len() - i,
    {
        proof {
            assert(all.take(i as int + 1).drop_last() =~= all.take(i as int));
            assert(all.take(i as int + 1).last() == path[i as int]@);
            if i == 0 {
                assert(all.take(1)[0] == path[0]@);
                assert(Seq::<char>::empty() + symbol_name(path[0]@) =~= symbol_name(path[0]@));
            }
        }
        if i > 0 {
            text.append(between);
        }
        match &path[i] {
            Symbol::Named(name) => text.append(name.as_str()),
            Symbol::Anon() => text.append("?"),
        }
        i += 1;
    }
    assert(all.take(i as int) =~= all);
    text
}

/// The path as it is shown to a reader: its segments with dots between
/// them.
pub fn path_to_string(path: &Vec<Symbol>) -> (text: String)
    ensures
        text@ == joined_path(path_view(path@), "."@),
{
    join_path(path, ".")
}

} // verus!
