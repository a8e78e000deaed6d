//! The names that the language provides: operators with their binding power
//! and associativity, built-in functions and types, each with the text that
//! stands for it in generated code.

use crate::ast::{Node, NodeView};
use crate::ast::no_info;
use crate::primitives::{
    bit_type, bit_view, fields_view, i32_type, i32_view, names_view, set_of, string_type,
    string_view, unit_type, unit_view, variable, void_type, void_view, Prim, PrimView, TypeSet,
};
use vstd::prelude::*;

verus! {

/// The side to which an operator groups.
#[derive(Clone, Copy, Debug, PartialEq, Eq, Structural)]
pub enum Direction {
    Left,
    Right,
}

/// How a name takes its arguments.
#[derive(Clone, Copy, Debug, PartialEq, Eq, Structural)]
pub enum Semantic {
    /// Between or before its arguments; a higher `binding` binds tighter.
    Operator { binding: i32, assoc: Direction },
    /// Before a bracketed argument list.
    Func,
}

/// The binding power of a name that is applied as a function.
pub const FUNCTION_BINDING_POWER: i32 = 1000;

/// An operator of the given binding power that groups to the given side.
pub fn operator(binding: i32, assoc: Direction) -> (semantic: Semantic)
    ensures
        semantic == (Semantic::Operator { binding, assoc }),
{
    Semantic::Operator { binding, assoc }
}

/// How a built-in is written in generated code.
#[derive(Debug, PartialEq, Eq)]
pub struct LangImpl {
    pub code: String,
    pub arg_joiner: String,
    pub arg_processor: String,
    pub includes: String,
    pub flags: Vec<String>,
}

/// The mathematical value of a [`LangImpl`].
pub ghost struct LangImplView {
    pub code: Seq<char>,
    pub arg_joiner: Seq<char>,
    pub arg_processor: Seq<char>,
    pub includes: Seq<char>,
    pub flags: Seq<Seq<char>>,
}

impl View for LangImpl {
    type V = LangImplView;

    open spec fn view(&self) -> LangImplView {
        LangImplView {
            code: self.code@,
            arg_joiner: self.arg_joiner@,
            arg_processor: self.arg_processor@,
            includes: self.includes@,
            flags: names_view(self.flags@),
        }
    }
}

impl LangImpl {
    /// A built-in that is written as `code`.
    pub fn new(code: &str) -> (lang: LangImpl)
        ensures
            lang@ == (LangImplView {
                code: code@,
                arg_joiner: Seq::empty(),
                arg_processor: Seq::empty(),
                includes: Seq::empty(),
                flags: Seq::empty(),
            }),
    {
        let lang = LangImpl {
            code: String::from_str(code),
            arg_joiner: String::new(),
            arg_processor: String::new(),
            includes: String::new(),
            flags: Vec::new(),
        };
        assert(names_view(lang.flags@) =~= Seq::empty());
        lang
    }

    /// An operator that is written as `arg_joiner` between its arguments.
    pub fn operator(arg_joiner: &str) -> (lang: LangImpl)
        ensures
            lang@ == (LangImplView {
                code: Seq::empty(),
                arg_joiner: arg_joiner@,
                arg_processor: Seq::empty(),
                includes: Seq::empty(),
                flags: Seq::empty(),
            }),
    {
        let lang = LangImpl {
            code: String::new(),
            arg_joiner: String::from_str(arg_joiner),
            arg_processor: String::new(),
            includes: String::new(),
            flags: Vec::new(),
        };
        assert(names_view(lang.flags@) =~= Seq::empty());
        lang
    }

    /// The same, with `arg_joiner` written between the arguments.
    pub fn with_arg_joiner(self, arg_joiner: &str) -> (lang: LangImpl)
        ensures
            lang@ == (LangImplView { arg_joiner: arg_joiner@, ..self@ }),
    {
        LangImpl {
            code: self.code,
            arg_joiner: String::from_str(arg_joiner),
            arg_processor: self.arg_processor,
            includes: self.includes,
            flags: self.flags,
        }
    }

    /// The same, with `arg_processor` applied to each argument.
    pub fn with_arg_processor(self, arg_processor: &str) -> (lang: LangImpl)
        ensures
            lang@ == (LangImplView { arg_processor: arg_processor@, ..self@ }),
    {
        LangImpl {
            code: self.code,
            arg_joiner: self.arg_joiner,
            arg_processor: String::from_str(arg_processor),
            includes: self.includes,
            flags: self.flags,
        }
    }

    /// The same, with `includes` as the lines that it needs included.
    pub fn with_includes(self, includes: &str) -> (lang: LangImpl)
        ensures
            lang@ == (LangImplView { includes: includes@, ..self@ }),
    {
        LangImpl {
            code: self.code,
            arg_joiner: self.arg_joiner,
            arg_processor: self.arg_processor,
            includes: String::from_str(includes),
            flags: self.flags,
        }
    }

    /// The same, with one more flag for the compiler.
    pub fn with_flag(self, flag: &str) -> (lang: LangImpl)
        ensures
            lang@ == (LangImplView { flags: self@.flags.push(flag@), ..self@ }),
    {
        let mut flags = self.flags;
        flags.push(String::from_str(flag));
        let lang = LangImpl {
            code: self.code,
            arg_joiner: self.arg_joiner,
            arg_processor: self.arg_processor,
            includes: self.includes,
            flags,
        };
        assert(names_view(lang.flags@) =~= self@.flags.push(flag@));
        lang
    }
}

/// A name that the language provides.
#[derive(Debug, PartialEq, Eq)]
pub struct Extern {
    pub name: String,
    pub value: Prim,
    pub semantic: Semantic,
    pub ty: Node,
    pub cpp: LangImpl,
}

/// The mathematical value of an [`Extern`].
pub ghost struct ExternView {
    pub name: Seq<char>,
    pub value: PrimView,
    pub semantic: Semantic,
    pub ty: NodeView,
    pub cpp: LangImplView,
}

impl View for Extern {
    type V = ExternView;

    open spec fn view(&self) -> ExternView {
        ExternView {
            name: self.name@,
            value: self.value@,
            semantic: self.semantic,
            ty: self.ty@,
            cpp: self.cpp@,
        }
    }
}

/// The values of a sequence of built-ins.
pub open spec fn externs_view(entries: Seq<Extern>) -> Seq<ExternView> {
    Seq::new(entries.len(), |i: int| entries[i]@)
}

/// The built-in that `name` stands for in a list of built-ins: the first
/// entry of that name.
pub open spec fn find_extern(entries: Seq<ExternView>, name: Seq<char>) -> Option<ExternView>
    decreases entries.len(),
{
    if entries.len() == 0 {
        None
    } else if entries[0].name == name {
        Some(entries[0])
    } else {
        find_extern(entries.subrange(1, entries.len() as int), name)
    }
}

/// The names of a list of built-ins, each with how it takes its arguments.
pub open spec fn operators_of(entries: Seq<ExternView>) -> Map<Seq<char>, Semantic> {
    Map::new(
        |name: Seq<char>| find_extern(entries, name) is Some,
        |name: Seq<char>| find_extern(entries, name).unwrap().semantic,
    )
}

/// The built-ins of a language, found by name.
#[derive(Debug, PartialEq, Eq)]
pub struct ExternTable {
    pub entries: Vec<Extern>,
}

impl View for ExternTable {
    type V = Seq<ExternView>;

    open spec fn view(&self) -> Seq<ExternView> {
        externs_view(self.entries@)
    }
}

/// Where the search for `name` stands after the first `checked` entries
/// held another name.
proof fn lemma_find_skips(entries: Seq<ExternView>, name: Seq<char>, checked: int)
    requires
        0 <= checked <= entries.len(),
        forall|j: int| 0 <= j < checked ==> entries[j].name != name,
    ensures
        find_extern(entries, name) == find_extern(
            entries.subrange(checked, entries.len() as int),
            name,
        ),
    decreases checked,
{
    if checked == 0 {
        assert(entries.subrange(0, entries.len() as int) =~= entries);
    } else {
        let rest = entries.subrange(1, entries.len() as int);
        assert forall|j: int| 0 <= j < checked - 1 implies rest[j].name != name by {
            assert(rest[j] == entries[j + 1]);
        }
        lemma_find_skips(rest, name, checked - 1);
        assert(rest.subrange(checked - 1, rest.len() as int) =~= entries.subrange(
            checked,
            entries.len() as int,
        ));
    }
}

impl ExternTable {
    /// The names of the table, each with how it takes its arguments.
    pub open spec fn operators(&self) -> Map<Seq<char>, Semantic> {
        operators_of(self@)
    }

    /// A table without entries.
    pub fn new() -> (table: ExternTable)
        ensures
            table@ == Seq::<ExternView>::empty(),
    {
        let table = ExternTable { entries: Vec::new() };
        assert(table@ =~= Seq::<ExternView>::empty());
        table
    }

    /// The built-in that `name` stands for, if there is one.
    pub fn get(&self, name: &String) -> (found: Option<&Extern>)
        ensures
            match found {
                Some(entry) => find_extern(self@, name@) == Some(entry@),
                None => find_extern(self@, name@) is None,
            },
    {
        let mut i: usize = 0;
        while i < self.entries.len()
            invariant
                i <= self.entries.len(),
                forall|j: int| 0 <= j < i ==> self@[j].name != name@,
            decreases self.entries.len() - i,
        {
            if self.entries[i].name == *name {
                proof {
                    lemma_find_skips(self@, name@, i as int);
                    assert(self@.subrange(i as int, self@.len() as int)[0] == self@[i as int]);
                }
                return Some(&self.entries[i]);
            }
            i += 1;
        }
        proof {
            lemma_find_skips(self@, name@, i as int);
        }
        None
    }

    /// How `name` takes its arguments, if the table holds it.
    pub fn semantic(&self, name: &String) -> (found: Option<Semantic>)
        ensures
            found == if self.operators().contains_key(name@) {
                Some(self.operators()[name@])
            } else {
                None
            },
    {
        match self.get(name) {
            Some(entry) => Some(entry.semantic),
            None => None,
        }
    }
}

// ---------------------------------------------------------------------
// The built-ins
// ---------------------------------------------------------------------
/// The type of a function that introduces the type variables `intros`.
pub open spec fn function_view(
    intros: Seq<(Seq<char>, PrimView)>,
    arguments: PrimView,
    results: PrimView,
) -> PrimView {
    PrimView::Function { intros, arguments: Box::new(arguments), results: Box::new(results) }
}

/// A built-in whose type is written `ty`.
pub open spec fn extern_view(
    name: Seq<char>,
    value: PrimView,
    semantic: Semantic,
    ty: PrimView,
    cpp: LangImplView,
) -> ExternView {
    ExternView { name, value, semantic, ty: NodeView::PrimNode(ty, no_info()), cpp }
}

fn make_extern(name: &str, value: Prim, semantic: Semantic, ty: Prim, cpp: LangImpl) -> (entry:
    Extern)
    ensures
        entry@ == extern_view(name@, value@, semantic, ty@, cpp@),
{
    Extern { name: String::from_str(name), value, semantic, ty: ty.into_node(), cpp }
}

fn built_in(name: &str) -> (value: Prim)
    ensures
        value@ == PrimView::BuiltIn(name@),
{
    Prim::BuiltIn(String::from_str(name))
}

fn function(intros: Vec<(String, Prim)>, arguments: Prim, results: Prim) -> (ty: Prim)
    ensures
        ty@ == function_view(fields_view(intros@), arguments@, results@),
{
    Prim::Function { intros, arguments: Box::new(arguments), results: Box::new(results) }
}

fn record_of_fields(fields: Vec<(String, Prim)>) -> (ty: Prim)
    ensures
        ty@ == PrimView::Struct(fields_view(fields@)),
{
    Prim::Struct(fields)
}

fn no_fields() -> (fields: Vec<(String, Prim)>)
    ensures
        fields_view(fields@) == Seq::<(Seq<char>, PrimView)>::empty(),
{
    let fields: Vec<(String, Prim)> = Vec::new();
    assert(fields_view(fields@) =~= Seq::<(Seq<char>, PrimView)>::empty());
    fields
}

fn fields1(name: &str, ty: Prim) -> (fields: Vec<(String, Prim)>)
    ensures
        fields_view(fields@) == seq![(name@, ty@)],
{
    let fields = vec![(String::from_str(name), ty)];
    assert(fields_view(fields@) =~= seq![(name@, ty@)]);
    fields
}

fn fields2(n1: &str, t1: Prim, n2: &str, t2: Prim) -> (fields: Vec<(String, Prim)>)
    ensures
        fields_view(fields@) == seq![(n1@, t1@), (n2@, t2@)],
{
    let fields = vec![(String::from_str(n1), t1), (String::from_str(n2), t2)];
    assert(fields_view(fields@) =~= seq![(n1@, t1@), (n2@, t2@)]);
    fields
}

fn fields3(n1: &str, t1: Prim, n2: &str, t2: Prim, n3: &str, t3: Prim) -> (fields: Vec<
    (String, Prim),
>)
    ensures
        fields_view(fields@) == seq![(n1@, t1@), (n2@, t2@), (n3@, t3@)],
{
    let fields = vec![
        (String::from_str(n1), t1),
        (String::from_str(n2), t2),
        (String::from_str(n3), t3),
    ];
    assert(fields_view(fields@) =~= seq![(n1@, t1@), (n2@, t2@), (n3@, t3@)]);
    fields
}

fn union_of(a: Prim, b: Prim) -> (ty: Prim)
    ensures
        ty@ == PrimView::Union(set_of(seq![a@, b@])),
{
    let members = vec![a, b];
    assert(crate::primitives::prims_view(members@) =~= seq![a@, b@]);
    Prim::Union(TypeSet::from_vec(members))
}

fn product_of(a: Prim, b: Prim) -> (ty: Prim)
    ensures
        ty@ == PrimView::Product(set_of(seq![a@, b@])),
{
    let members = vec![a, b];
    assert(crate::primitives::prims_view(members@) =~= seq![a@, b@]);
    Prim::Product(TypeSet::from_vec(members))
}

fn with_effect(inner: Prim, effect: &str) -> (ty: Prim)
    ensures
        ty@ == PrimView::WithEffect(Box::new(inner@), seq![effect@]),
{
    let effects = vec![String::from_str(effect)];
    assert(names_view(effects@) =~= seq![effect@]);
    Prim::WithEffect(Box::new(inner), effects)
}

/// The functions that the language provides.
pub open spec fn builtin_functions() -> Seq<ExternView> {
    seq![
        extern_view("argc"@, PrimView::BuiltIn("argc"@), Semantic::Func, i32_view(), LangImplView { code: "[&argc](){return argc;}"@, arg_joiner: Seq::empty(), arg_processor: Seq::empty(), includes: Seq::empty(), flags: Seq::empty() }),
        extern_view("argv"@, PrimView::BuiltIn("argv"@), Semantic::Func, function_view(Seq::empty(), PrimView::Struct(seq![("it"@, i32_view())]), string_view()), LangImplView { code: "([&argv](const int x){return argv[x];})"@, arg_joiner: Seq::empty(), arg_processor: Seq::empty(), includes: Seq::empty(), flags: Seq::empty() }),
        extern_view("eprint"@, PrimView::BuiltIn("eprint"@), Semantic::Func, function_view(Seq::empty(), PrimView::Struct(seq![("it"@, string_view())]), PrimView::WithEffect(Box::new(unit_view()), seq!["stderr"@])), LangImplView { code: "std::cerr << "@, arg_joiner: Seq::empty(), arg_processor: Seq::empty(), includes: "#include <iostream>"@, flags: Seq::empty() }),
        extern_view("exit"@, PrimView::BuiltIn("exit"@), Semantic::Func, function_view(Seq::empty(), PrimView::Struct(seq![("it"@, i32_view())]), void_view()), LangImplView { code: "[](const int code){exit(code);}"@, arg_joiner: Seq::empty(), arg_processor: Seq::empty(), includes: "#include <stdlib.h>"@, flags: Seq::empty() }),
        extern_view("parse_i32"@, PrimView::BuiltIn("parse_i32"@), Semantic::Func, function_view(Seq::empty(), PrimView::Struct(seq![("it"@, string_view())]), PrimView::Union(set_of(seq![i32_view(), void_view()]))), LangImplView { code: "std::stoi"@, arg_joiner: Seq::empty(), arg_processor: Seq::empty(), includes: "#include <string>"@, flags: Seq::empty() }),
        extern_view("print"@, PrimView::BuiltIn("print"@), Semantic::Func, function_view(Seq::empty(), PrimView::Struct(seq![("it"@, string_view())]), PrimView::WithEffect(Box::new(unit_view()), seq!["stdout"@])), LangImplView { code: "std::cout << "@, arg_joiner: Seq::empty(), arg_processor: Seq::empty(), includes: "#include <iostream>"@, flags: Seq::empty() }),
        extern_view("pointer"@, PrimView::BuiltIn("pointer"@), Semantic::Func, function_view(seq![("a"@, PrimView::Variable("Type"@))], PrimView::Struct(seq![("it"@, PrimView::Variable("Type"@))]), PrimView::Variable("a"@)), LangImplView { code: "std::cout << "@, arg_joiner: Seq::empty(), arg_processor: Seq::empty(), includes: "#include <iostream>"@, flags: Seq::empty() }),
        extern_view("struct"@, PrimView::BuiltIn("struct"@), Semantic::Func, function_view(seq![("a"@, PrimView::Variable("Type"@))], PrimView::Variable("a"@), PrimView::Variable("a"@)), LangImplView { code: "[](const int code){exit(code);}"@, arg_joiner: Seq::empty(), arg_processor: Seq::empty(), includes: "#include <stdlib.h>"@, flags: Seq::empty() }),
    ]
}

/// The operators that put a program together.
pub open spec fn structure_operators() -> Seq<ExternView> {
    seq![
        extern_view(";"@, PrimView::BuiltIn(";"@), Semantic::Operator { binding: 20, assoc: Direction::Left }, function_view(seq![("a"@, PrimView::Variable("Type"@)), ("b"@, PrimView::Variable("Type"@))], PrimView::Struct(seq![("left"@, PrimView::Variable("a"@)), ("right"@, PrimView::Variable("b"@))]), PrimView::Variable("b"@)), LangImplView { code: Seq::empty(), arg_joiner: ";"@, arg_processor: Seq::empty(), includes: Seq::empty(), flags: Seq::empty() }),
        extern_view(","@, PrimView::BuiltIn(","@), Semantic::Operator { binding: 30, assoc: Direction::Left }, function_view(seq![("a"@, PrimView::Variable("Type"@)), ("b"@, PrimView::Variable("Type"@))], PrimView::Struct(seq![("left"@, PrimView::Variable("a"@)), ("right"@, PrimView::Variable("b"@))]), PrimView::Product(set_of(seq![PrimView::Variable("a"@), PrimView::Variable("b"@)]))), LangImplView { code: Seq::empty(), arg_joiner: ";"@, arg_processor: Seq::empty(), includes: Seq::empty(), flags: Seq::empty() }),
        extern_view("="@, PrimView::BuiltIn("="@), Semantic::Operator { binding: 40, assoc: Direction::Right }, function_view(seq![("a"@, PrimView::Variable("Identifier"@)), ("b"@, PrimView::Variable("Type"@))], PrimView::Struct(seq![("left"@, PrimView::Variable("a"@)), ("right"@, PrimView::Variable("b"@))]), PrimView::Variable("b"@)), LangImplView { code: Seq::empty(), arg_joiner: " = "@, arg_processor: Seq::empty(), includes: Seq::empty(), flags: Seq::empty() }),
        extern_view("?"@, PrimView::BuiltIn("?"@), Semantic::Operator { binding: 45, assoc: Direction::Left }, function_view(seq![("a"@, PrimView::Variable("Type"@)), ("b"@, PrimView::Variable("Type"@))], PrimView::Struct(seq![("left"@, PrimView::Variable("a"@)), ("right"@, PrimView::Variable("b"@))]), PrimView::Union(set_of(seq![PrimView::Variable("a"@), PrimView::Variable("b"@)]))), LangImplView { code: Seq::empty(), arg_joiner: "?"@, arg_processor: Seq::empty(), includes: Seq::empty(), flags: Seq::empty() }),
        extern_view("|-"@, PrimView::BuiltIn("|-"@), Semantic::Operator { binding: 46, assoc: Direction::Right }, function_view(seq![("a"@, PrimView::Variable("Type"@))], PrimView::Struct(seq![("left"@, PrimView::Variable("Type"@)), ("right"@, PrimView::Variable("a"@))]), PrimView::Variable("a"@)), LangImplView { code: Seq::empty(), arg_joiner: "|-"@, arg_processor: Seq::empty(), includes: Seq::empty(), flags: Seq::empty() }),
        extern_view("-|"@, PrimView::BuiltIn("-|"@), Semantic::Operator { binding: 47, assoc: Direction::Left }, function_view(seq![("a"@, PrimView::Variable("Type"@))], PrimView::Struct(seq![("left"@, PrimView::Variable("Type"@)), ("right"@, PrimView::Variable("a"@))]), PrimView::Variable("a"@)), LangImplView { code: Seq::empty(), arg_joiner: "-|"@, arg_processor: Seq::empty(), includes: Seq::empty(), flags: Seq::empty() }),
        extern_view("|"@, PrimView::BuiltIn("|"@), Semantic::Operator { binding: 48, assoc: Direction::Left }, function_view(seq![("a"@, PrimView::Variable("Type"@)), ("b"@, PrimView::Variable("Type"@))], PrimView::Struct(seq![("left"@, PrimView::Variable("a"@)), ("right"@, PrimView::Variable("b"@))]), PrimView::Union(set_of(seq![PrimView::Variable("a"@), PrimView::Variable("b"@)]))), LangImplView { code: Seq::empty(), arg_joiner: "|"@, arg_processor: Seq::empty(), includes: Seq::empty(), flags: Seq::empty() }),
        extern_view("&"@, PrimView::BuiltIn("&"@), Semantic::Operator { binding: 48, assoc: Direction::Left }, function_view(seq![("a"@, PrimView::Variable("Type"@)), ("b"@, PrimView::Variable("Type"@))], PrimView::Struct(seq![("left"@, PrimView::Variable("a"@)), ("right"@, PrimView::Variable("b"@))]), PrimView::Product(set_of(seq![PrimView::Variable("a"@), PrimView::Variable("b"@)]))), LangImplView { code: Seq::empty(), arg_joiner: "&"@, arg_processor: Seq::empty(), includes: Seq::empty(), flags: Seq::empty() }),
    ]
}

/// Concatenation, function types and comparisons.
pub open spec fn comparison_operators() -> Seq<ExternView> {
    seq![
        extern_view("++"@, PrimView::BuiltIn("++"@), Semantic::Operator { binding: 49, assoc: Direction::Left }, function_view(seq![("a"@, PrimView::Variable("Display"@)), ("b"@, PrimView::Variable("Display"@))], PrimView::Struct(seq![("left"@, PrimView::Variable("a"@)), ("right"@, PrimView::Variable("b"@))]), string_view()), LangImplView { code: Seq::empty(), arg_joiner: "+"@, arg_processor: "std::to_string"@, includes: "#include <string>\n#include <sstream>\nnamespace std{\ntemplate <typename T>\nstring to_string(const T& t){\n  stringstream out;\n  out << t;\n  return out.str();\n}\nstring to_string(const bool& t){\n  return t ? \"true\" : \"false\";\n}\n}"@, flags: Seq::empty() }),
        extern_view("->"@, PrimView::BuiltIn("->"@), Semantic::Operator { binding: 50, assoc: Direction::Left }, function_view(seq![("a"@, PrimView::Variable("Type"@)), ("b"@, PrimView::Variable("Type"@))], PrimView::Struct(seq![("left"@, PrimView::Variable("a"@)), ("right"@, PrimView::Variable("b"@))]), function_view(Seq::empty(), PrimView::Variable("a"@), PrimView::Variable("b"@))), LangImplView { code: Seq::empty(), arg_joiner: "???"@, arg_processor: Seq::empty(), includes: Seq::empty(), flags: Seq::empty() }),
        extern_view("<"@, PrimView::BuiltIn("<"@), Semantic::Operator { binding: 51, assoc: Direction::Left }, function_view(seq![("a"@, PrimView::Variable("Number"@)), ("b"@, PrimView::Variable("Number"@))], PrimView::Struct(seq![("left"@, PrimView::Variable("a"@)), ("right"@, PrimView::Variable("b"@))]), bit_view()), LangImplView { code: Seq::empty(), arg_joiner: "<"@, arg_processor: Seq::empty(), includes: Seq::empty(), flags: Seq::empty() }),
        extern_view("<="@, PrimView::BuiltIn("<="@), Semantic::Operator { binding: 51, assoc: Direction::Left }, function_view(seq![("a"@, PrimView::Variable("Number"@)), ("b"@, PrimView::Variable("Number"@))], PrimView::Struct(seq![("left"@, PrimView::Variable("a"@)), ("right"@, PrimView::Variable("b"@))]), bit_view()), LangImplView { code: Seq::empty(), arg_joiner: "<="@, arg_processor: Seq::empty(), includes: Seq::empty(), flags: Seq::empty() }),
        extern_view(">"@, PrimView::BuiltIn(">"@), Semantic::Operator { binding: 51, assoc: Direction::Left }, function_view(seq![("a"@, PrimView::Variable("Number"@)), ("b"@, PrimView::Variable("Number"@))], PrimView::Struct(seq![("left"@, PrimView::Variable("a"@)), ("right"@, PrimView::Variable("b"@))]), bit_view()), LangImplView { code: Seq::empty(), arg_joiner: ">"@, arg_processor: Seq::empty(), includes: Seq::empty(), flags: Seq::empty() }),
        extern_view(">="@, PrimView::BuiltIn(">="@), Semantic::Operator { binding: 51, assoc: Direction::Left }, function_view(seq![("a"@, PrimView::Variable("Number"@)), ("b"@, PrimView::Variable("Number"@))], PrimView::Struct(seq![("left"@, PrimView::Variable("a"@)), ("right"@, PrimView::Variable("b"@))]), bit_view()), LangImplView { code: Seq::empty(), arg_joiner: ">="@, arg_processor: Seq::empty(), includes: Seq::empty(), flags: Seq::empty() }),
        extern_view("!="@, PrimView::BuiltIn("!="@), Semantic::Operator { binding: 51, assoc: Direction::Left }, function_view(seq![("a"@, PrimView::Variable("Type"@)), ("b"@, PrimView::Variable("Type"@))], PrimView::Struct(seq![("left"@, PrimView::Variable("a"@)), ("right"@, PrimView::Variable("b"@))]), bit_view()), LangImplView { code: Seq::empty(), arg_joiner: "!="@, arg_processor: Seq::empty(), includes: Seq::empty(), flags: Seq::empty() }),
        extern_view("=="@, PrimView::BuiltIn("=="@), Semantic::Operator { binding: 51, assoc: Direction::Left }, function_view(seq![("a"@, PrimView::Variable("Type"@)), ("b"@, PrimView::Variable("Type"@))], PrimView::Struct(seq![("left"@, PrimView::Variable("a"@)), ("right"@, PrimView::Variable("b"@))]), bit_view()), LangImplView { code: Seq::empty(), arg_joiner: "=="@, arg_processor: Seq::empty(), includes: Seq::empty(), flags: Seq::empty() }),
    ]
}

/// The logical operators, and those that are written before one argument.
pub open spec fn logic_operators() -> Seq<ExternView> {
    seq![
        extern_view("||"@, PrimView::BuiltIn("||"@), Semantic::Operator { binding: 60, assoc: Direction::Left }, function_view(Seq::empty(), PrimView::Struct(seq![("left"@, bit_view()), ("right"@, bit_view())]), bit_view()), LangImplView { code: Seq::empty(), arg_joiner: "||"@, arg_processor: Seq::empty(), includes: Seq::empty(), flags: Seq::empty() }),
        extern_view("&&"@, PrimView::BuiltIn("&&"@), Semantic::Operator { binding: 60, assoc: Direction::Left }, function_view(Seq::empty(), PrimView::Struct(seq![("left"@, bit_view()), ("right"@, bit_view())]), bit_view()), LangImplView { code: Seq::empty(), arg_joiner: "&&"@, arg_processor: Seq::empty(), includes: Seq::empty(), flags: Seq::empty() }),
        extern_view("!"@, PrimView::BuiltIn("!"@), Semantic::Operator { binding: 70, assoc: Direction::Left }, function_view(Seq::empty(), bit_view(), bit_view()), LangImplView { code: Seq::empty(), arg_joiner: "!"@, arg_processor: Seq::empty(), includes: Seq::empty(), flags: Seq::empty() }),
        extern_view("..."@, PrimView::BuiltIn("..."@), Semantic::Operator { binding: 70, assoc: Direction::Left }, function_view(seq![("a"@, PrimView::Variable("Type"@))], PrimView::Struct(seq![("it"@, PrimView::Variable("a"@))]), PrimView::Variable("a"@)), LangImplView { code: Seq::empty(), arg_joiner: "..."@, arg_processor: Seq::empty(), includes: Seq::empty(), flags: Seq::empty() }),
        extern_view("-"@, PrimView::BuiltIn("-"@), Semantic::Operator { binding: 70, assoc: Direction::Left }, function_view(seq![("a"@, PrimView::Variable("Number"@))], PrimView::Struct(seq![("it"@, PrimView::Variable("a"@))]), PrimView::Variable("a"@)), LangImplView { code: Seq::empty(), arg_joiner: "-"@, arg_processor: Seq::empty(), includes: Seq::empty(), flags: Seq::empty() }),
        extern_view("+"@, PrimView::BuiltIn("+"@), Semantic::Operator { binding: 70, assoc: Direction::Left }, function_view(seq![("a"@, PrimView::Variable("Number"@)), ("b"@, PrimView::Variable("Number"@))], PrimView::Struct(seq![("left"@, PrimView::Variable("a"@)), ("right"@, PrimView::Variable("b"@))]), PrimView::Variable("a"@)), LangImplView { code: Seq::empty(), arg_joiner: "+"@, arg_processor: Seq::empty(), includes: Seq::empty(), flags: Seq::empty() }),
    ]
}

/// Multiplication, division, powers and composition.
pub open spec fn arithmetic_operators() -> Seq<ExternView> {
    seq![
        extern_view("*"@, PrimView::BuiltIn("*"@), Semantic::Operator { binding: 80, assoc: Direction::Left }, function_view(seq![("a"@, PrimView::Variable("Number"@)), ("b"@, PrimView::Variable("Number"@))], PrimView::Struct(seq![("left"@, PrimView::Variable("a"@)), ("right"@, PrimView::Variable("b"@))]), PrimView::Variable("a"@)), LangImplView { code: Seq::empty(), arg_joiner: "*"@, arg_processor: Seq::empty(), includes: Seq::empty(), flags: Seq::empty() }),
        extern_view("%"@, PrimView::BuiltIn("%"@), Semantic::Operator { binding: 80, assoc: Direction::Left }, function_view(seq![("a"@, PrimView::Variable("Number"@)), ("b"@, PrimView::Variable("Number"@))], PrimView::Struct(seq![("left"@, PrimView::Variable("a"@)), ("right"@, PrimView::Variable("b"@))]), PrimView::Variable("a"@)), LangImplView { code: Seq::empty(), arg_joiner: "%"@, arg_processor: Seq::empty(), includes: Seq::empty(), flags: Seq::empty() }),
        extern_view("/"@, PrimView::BuiltIn("/"@), Semantic::Operator { binding: 80, assoc: Direction::Left }, function_view(seq![("a"@, PrimView::Variable("Number"@)), ("b"@, PrimView::Variable("Number"@))], PrimView::Struct(seq![("left"@, PrimView::Variable("a"@)), ("right"@, PrimView::Variable("b"@))]), PrimView::Variable("a"@)), LangImplView { code: Seq::empty(), arg_joiner: "/"@, arg_processor: Seq::empty(), includes: Seq::empty(), flags: Seq::empty() }),
        extern_view("^"@, PrimView::BuiltIn("^"@), Semantic::Operator { binding: 90, assoc: Direction::Right }, function_view(seq![("a"@, PrimView::Variable("Number"@)), ("b"@, PrimView::Variable("Number"@))], PrimView::Struct(seq![("left"@, PrimView::Variable("a"@)), ("right"@, PrimView::Variable("b"@))]), PrimView::Variable("a"@)), LangImplView { code: "pow"@, arg_joiner: ", "@, arg_processor: Seq::empty(), includes: "#include <cmath>"@, flags: Seq::empty().push("-lm"@) }),
        extern_view("."@, PrimView::BuiltIn("."@), Semantic::Operator { binding: 100, assoc: Direction::Right }, function_view(seq![("a"@, PrimView::Variable("Type"@)), ("b"@, PrimView::Variable("Type"@)), ("c"@, PrimView::Variable("Type"@))], PrimView::Struct(seq![("left"@, PrimView::Variable("a"@)), ("right"@, function_view(Seq::empty(), PrimView::Struct(seq![("it"@, PrimView::Variable("a"@))]), PrimView::Variable("c"@)))]), PrimView::Variable("c"@)), LangImplView { code: "[](const auto l, const auto r){return r(l);}"@, arg_joiner: Seq::empty(), arg_processor: Seq::empty(), includes: Seq::empty(), flags: Seq::empty() }),
    ]
}

/// The types that the language provides.
pub open spec fn builtin_types() -> Seq<ExternView> {
    seq![
        extern_view("I32"@, i32_view(), Semantic::Func, PrimView::Variable("Type"@), LangImplView { code: "int32_t"@, arg_joiner: Seq::empty(), arg_processor: Seq::empty(), includes: Seq::empty(), flags: Seq::empty() }),
        extern_view("Number"@, PrimView::Variable("Number"@), Semantic::Func, PrimView::Variable("Type"@), LangImplView { code: "usize"@, arg_joiner: Seq::empty(), arg_processor: Seq::empty(), includes: Seq::empty(), flags: Seq::empty() }),
        extern_view("String"@, string_view(), Semantic::Func, PrimView::Variable("Type"@), LangImplView { code: "std::string"@, arg_joiner: Seq::empty(), arg_processor: Seq::empty(), includes: "#include <string>"@, flags: Seq::empty() }),
        extern_view("Bit"@, bit_view(), Semantic::Func, PrimView::Variable("Type"@), LangImplView { code: "short"@, arg_joiner: Seq::empty(), arg_processor: Seq::empty(), includes: Seq::empty(), flags: Seq::empty() }),
        extern_view("Unit"@, unit_view(), Semantic::Func, PrimView::Variable("Type"@), LangImplView { code: "void"@, arg_joiner: Seq::empty(), arg_processor: Seq::empty(), includes: Seq::empty(), flags: Seq::empty() }),
        extern_view("Void"@, void_view(), Semantic::Func, PrimView::Variable("Void"@), LangImplView { code: "/*void: should never happen*/ auto"@, arg_joiner: Seq::empty(), arg_processor: Seq::empty(), includes: Seq::empty(), flags: Seq::empty() }),
        extern_view("Type"@, PrimView::Variable("Type"@), Semantic::Func, PrimView::Variable("Type"@), LangImplView { code: "auto"@, arg_joiner: Seq::empty(), arg_processor: Seq::empty(), includes: Seq::empty(), flags: Seq::empty() }),
    ]
}

/// The built-ins of the language.
pub open spec fn builtins() -> Seq<ExternView> {
    builtin_functions()
        + structure_operators()
        + comparison_operators()
        + logic_operators()
        + arithmetic_operators()
        + builtin_types()
}

fn push_builtin_functions(entries: &mut Vec<Extern>)
    ensures
        externs_view(final(entries)@) == externs_view(old(entries)@) + builtin_functions(),
{
    let ghost before = externs_view(entries@);
    entries.push(make_extern("argc", built_in("argc"), Semantic::Func, i32_type(), LangImpl::new("[&argc](){return argc;}")));
    entries.push(make_extern("argv", built_in("argv"), Semantic::Func, function(no_fields(), record_of_fields(fields1("it", i32_type())), string_type()), LangImpl::new("([&argv](const int x){return argv[x];})")));
    entries.push(make_extern("eprint", built_in("eprint"), Semantic::Func, function(no_fields(), record_of_fields(fields1("it", string_type())), with_effect(unit_type(), "stderr")), LangImpl::new("std::cerr << ").with_includes("#include <iostream>")));
    entries.push(make_extern("exit", built_in("exit"), Semantic::Func, function(no_fields(), record_of_fields(fields1("it", i32_type())), void_type()), LangImpl::new("[](const int code){exit(code);}").with_includes("#include <stdlib.h>")));
    entries.push(make_extern("parse_i32", built_in("parse_i32"), Semantic::Func, function(no_fields(), record_of_fields(fields1("it", string_type())), union_of(i32_type(), void_type())), LangImpl::new("std::stoi").with_includes("#include <string>")));
    entries.push(make_extern("print", built_in("print"), Semantic::Func, function(no_fields(), record_of_fields(fields1("it", string_type())), with_effect(unit_type(), "stdout")), LangImpl::new("std::cout << ").with_includes("#include <iostream>")));
    entries.push(make_extern("pointer", built_in("pointer"), Semantic::Func, function(fields1("a", variable("Type")), record_of_fields(fields1("it", variable("Type"))), variable("a")), LangImpl::new("std::cout << ").with_includes("#include <iostream>")));
    entries.push(make_extern("struct", built_in("struct"), Semantic::Func, function(fields1("a", variable("Type")), variable("a"), variable("a")), LangImpl::new("[](const int code){exit(code);}").with_includes("#include <stdlib.h>")));
    assert(externs_view(entries@) =~= before + builtin_functions());
}

fn push_structure_operators(entries: &mut Vec<Extern>)
    ensures
        externs_view(final(entries)@) == externs_view(old(entries)@) + structure_operators(),
{
    let ghost before = externs_view(entries@);
    entries.push(make_extern(";", built_in(";"), operator(20, Direction::Left), function(fields2("a", variable("Type"), "b", variable("Type")), record_of_fields(fields2("left", variable("a"), "right", variable("b"))), variable("b")), LangImpl::operator(";")));
    entries.push(make_extern(",", built_in(","), operator(30, Direction::Left), function(fields2("a", variable("Type"), "b", variable("Type")), record_of_fields(fields2("left", variable("a"), "right", variable("b"))), product_of(variable("a"), variable("b"))), LangImpl::operator(";")));
    entries.push(make_extern("=", built_in("="), operator(40, Direction::Right), function(fields2("a", variable("Identifier"), "b", variable("Type")), record_of_fields(fields2("left", variable("a"), "right", variable("b"))), variable("b")), LangImpl::operator(" = ")));
    entries.push(make_extern("?", built_in("?"), operator(45, Direction::Left), function(fields2("a", variable("Type"), "b", variable("Type")), record_of_fields(fields2("left", variable("a"), "right", variable("b"))), union_of(variable("a"), variable("b"))), LangImpl::operator("?")));
    entries.push(make_extern("|-", built_in("|-"), operator(46, Direction::Right), function(fields1("a", variable("Type")), record_of_fields(fields2("left", variable("Type"), "right", variable("a"))), variable("a")), LangImpl::operator("|-")));
    entries.push(make_extern("-|", built_in("-|"), operator(47, Direction::Left), function(fields1("a", variable("Type")), record_of_fields(fields2("left", variable("Type"), "right", variable("a"))), variable("a")), LangImpl::operator("-|")));
    entries.push(make_extern("|", built_in("|"), operator(48, Direction::Left), function(fields2("a", variable("Type"), "b", variable("Type")), record_of_fields(fields2("left", variable("a"), "right", variable("b"))), union_of(variable("a"), variable("b"))), LangImpl::operator("|")));
    entries.push(make_extern("&", built_in("&"), operator(48, Direction::Left), function(fields2("a", variable("Type"), "b", variable("Type")), record_of_fields(fields2("left", variable("a"), "right", variable("b"))), product_of(variable("a"), variable("b"))), LangImpl::operator("&")));
    assert(externs_view(entries@) =~= before + structure_operators());
}

fn push_comparison_operators(entries: &mut Vec<Extern>)
    ensures
        externs_view(final(entries)@) == externs_view(old(entries)@) + comparison_operators(),
{
    let ghost before = externs_view(entries@);
    entries.push(make_extern("++", built_in("++"), operator(49, Direction::Left), function(fields2("a", variable("Display"), "b", variable("Display")), record_of_fields(fields2("left", variable("a"), "right", variable("b"))), string_type()), LangImpl::operator("+").with_arg_processor("std::to_string").with_includes("#include <string>\n#include <sstream>\nnamespace std{\ntemplate <typename T>\nstring to_string(const T& t){\n  stringstream out;\n  out << t;\n  return out.str();\n}\nstring to_string(const bool& t){\n  return t ? \"true\" : \"false\";\n}\n}")));
    entries.push(make_extern("->", built_in("->"), operator(50, Direction::Left), function(fields2("a", variable("Type"), "b", variable("Type")), record_of_fields(fields2("left", variable("a"), "right", variable("b"))), function(no_fields(), variable("a"), variable("b"))), LangImpl::operator("???")));
    entries.push(make_extern("<", built_in("<"), operator(51, Direction::Left), function(fields2("a", variable("Number"), "b", variable("Number")), record_of_fields(fields2("left", variable("a"), "right", variable("b"))), bit_type()), LangImpl::operator("<")));
    entries.push(make_extern("<=", built_in("<="), operator(51, Direction::Left), function(fields2("a", variable("Number"), "b", variable("Number")), record_of_fields(fields2("left", variable("a"), "right", variable("b"))), bit_type()), LangImpl::operator("<=")));
    entries.push(make_extern(">", built_in(">"), operator(51, Direction::Left), function(fields2("a", variable("Number"), "b", variable("Number")), record_of_fields(fields2("left", variable("a"), "right", variable("b"))), bit_type()), LangImpl::operator(">")));
    entries.push(make_extern(">=", built_in(">="), operator(51, Direction::Left), function(fields2("a", variable("Number"), "b", variable("Number")), record_of_fields(fields2("left", variable("a"), "right", variable("b"))), bit_type()), LangImpl::operator(">=")));
    entries.push(make_extern("!=", built_in("!="), operator(51, Direction::Left), function(fields2("a", variable("Type"), "b", variable("Type")), record_of_fields(fields2("left", variable("a"), "right", variable("b"))), bit_type()), LangImpl::operator("!=")));
    entries.push(make_extern("==", built_in("=="), operator(51, Direction::Left), function(fields2("a", variable("Type"), "b", variable("Type")), record_of_fields(fields2("left", variable("a"), "right", variable("b"))), bit_type()), LangImpl::operator("==")));
    assert(externs_view(entries@) =~= before + comparison_operators());
}

fn push_logic_operators(entries: &mut Vec<Extern>)
    ensures
        externs_view(final(entries)@) == externs_view(old(entries)@) + logic_operators(),
{
    let ghost before = externs_view(entries@);
    entries.push(make_extern("||", built_in("||"), operator(60, Direction::Left), function(no_fields(), record_of_fields(fields2("left", bit_type(), "right", bit_type())), bit_type()), LangImpl::operator("||")));
    entries.push(make_extern("&&", built_in("&&"), operator(60, Direction::Left), function(no_fields(), record_of_fields(fields2("left", bit_type(), "right", bit_type())), bit_type()), LangImpl::operator("&&")));
    entries.push(make_extern("!", built_in("!"), operator(70, Direction::Left), function(no_fields(), bit_type(), bit_type()), LangImpl::operator("!")));
    entries.push(make_extern("...", built_in("..."), operator(70, Direction::Left), function(fields1("a", variable("Type")), record_of_fields(fields1("it", variable("a"))), variable("a")), LangImpl::operator("...")));
    entries.push(make_extern("-", built_in("-"), operator(70, Direction::Left), function(fields1("a", variable("Number")), record_of_fields(fields1("it", variable("a"))), variable("a")), LangImpl::operator("-")));
    entries.push(make_extern("+", built_in("+"), operator(70, Direction::Left), function(fields2("a", variable("Number"), "b", variable("Number")), record_of_fields(fields2("left", variable("a"), "right", variable("b"))), variable("a")), LangImpl::operator("+")));
    assert(externs_view(entries@) =~= before + logic_operators());
}

fn push_arithmetic_operators(entries: &mut Vec<Extern>)
    ensures
        externs_view(final(entries)@) == externs_view(old(entries)@) + arithmetic_operators(),
{
    let ghost before = externs_view(entries@);
    entries.push(make_extern("*", built_in("*"), operator(80, Direction::Left), function(fields2("a", variable("Number"), "b", variable("Number")), record_of_fields(fields2("left", variable("a"), "right", variable("b"))), variable("a")), LangImpl::operator("*")));
    entries.push(make_extern("%", built_in("%"), operator(80, Direction::Left), function(fields2("a", variable("Number"), "b", variable("Number")), record_of_fields(fields2("left", variable("a"), "right", variable("b"))), variable("a")), LangImpl::operator("%")));
    entries.push(make_extern("/", built_in("/"), operator(80, Direction::Left), function(fields2("a", variable("Number"), "b", variable("Number")), record_of_fields(fields2("left", variable("a"), "right", variable("b"))), variable("a")), LangImpl::operator("/")));
    entries.push(make_extern("^", built_in("^"), operator(90, Direction::Right), function(fields2("a", variable("Number"), "b", variable("Number")), record_of_fields(fields2("left", variable("a"), "right", variable("b"))), variable("a")), LangImpl::new("pow").with_includes("#include <cmath>").with_arg_joiner(", ").with_flag("-lm")));
    entries.push(make_extern(".", built_in("."), operator(100, Direction::Right), function(fields3("a", variable("Type"), "b", variable("Type"), "c", variable("Type")), record_of_fields(fields2("left", variable("a"), "right", function(no_fields(), record_of_fields(fields1("it", variable("a"))), variable("c")))), variable("c")), LangImpl::new("[](const auto l, const auto r){return r(l);}")));
    assert(externs_view(entries@) =~= before + arithmetic_operators());
}

fn push_builtin_types(entries: &mut Vec<Extern>)
    ensures
        externs_view(final(entries)@) == externs_view(old(entries)@) + builtin_types(),
{
    let ghost before = externs_view(entries@);
    entries.push(make_extern("I32", i32_type(), Semantic::Func, variable("Type"), LangImpl::new("int32_t")));
    entries.push(make_extern("Number", variable("Number"), Semantic::Func, variable("Type"), LangImpl::new("usize")));
    entries.push(make_extern("String", string_type(), Semantic::Func, variable("Type"), LangImpl::new("std::string").with_includes("#include <string>")));
    entries.push(make_extern("Bit", bit_type(), Semantic::Func, variable("Type"), LangImpl::new("short")));
    entries.push(make_extern("Unit", unit_type(), Semantic::Func, variable("Type"), LangImpl::new("void")));
    entries.push(make_extern("Void", void_type(), Semantic::Func, variable("Void"), LangImpl::new("/*void: should never happen*/ auto")));
    entries.push(make_extern("Type", variable("Type"), Semantic::Func, variable("Type"), LangImpl::new("auto")));
    assert(externs_view(entries@) =~= before + builtin_types());
}

/// The table of the built-ins of the language.
pub fn get_externs() -> (table: ExternTable)
    ensures
        table@ == builtins(),
{
    let mut entries: Vec<Extern> = Vec::new();
    assert(externs_view(entries@) =~= Seq::<ExternView>::empty());
    push_builtin_functions(&mut entries);
    push_structure_operators(&mut entries);
    push_comparison_operators(&mut entries);
    push_logic_operators(&mut entries);
    push_arithmetic_operators(&mut entries);
    push_builtin_types(&mut entries);
    let table = ExternTable { entries };
    assert(table@ =~= builtins());
    table
}

} // verus!
