//! Generated code as a tree of blocks, statements and expressions, and
//! its text.

use crate::ast::{join_path, joined_path, path_view, PathView, Symbol};
use vstd::prelude::*;

verus! {

/// A piece of generated code.
#[derive(Debug)]
pub enum Code {
    Empty,
    Block(Vec<Code>),
    Struct(Vec<Code>),
    Expr(String),
    Statement(String),
    If { condition: Box<Code>, consequent: Box<Code>, alternative: Box<Code> },
    Func { name: String, args: Box<Code>, return_type: String, body: Box<Code>, lambda: bool },
}

/// The mathematical value of a [`Code`].
pub ghost enum CodeView {
    Empty,
    Block(Seq<CodeView>),
    Struct(Seq<CodeView>),
    Expr(Seq<char>),
    Statement(Seq<char>),
    If { condition: Box<CodeView>, consequent: Box<CodeView>, alternative: Box<CodeView> },
    Func {
        name: Seq<char>,
        args: Box<CodeView>,
        return_type: Seq<char>,
        body: Box<CodeView>,
        lambda: bool,
    },
}

/// The value of a piece of code.
pub open spec fn code_view(code: Code) -> CodeView
    decreases code,
{
    match code {
        Code::Empty => CodeView::Empty,
        Code::Block(statements) => CodeView::Block(codes_view(statements@)),
        Code::Struct(values) => CodeView::Struct(codes_view(values@)),
        Code::Expr(text) => CodeView::Expr(text@),
        Code::Statement(text) => CodeView::Statement(text@),
        Code::If { condition, consequent, alternative } => CodeView::If {
            condition: Box::new(code_view(*condition)),
            consequent: Box::new(code_view(*consequent)),
            alternative: Box::new(code_view(*alternative)),
        },
        Code::Func { name, args, return_type, body, lambda } => CodeView::Func {
            name: name@,
            args: Box::new(code_view(*args)),
            return_type: return_type@,
            body: Box::new(code_view(*body)),
            lambda,
        },
    }
}

/// The values of a sequence of pieces of code.
pub open spec fn codes_view(codes: Seq<Code>) -> Seq<CodeView>
    decreases codes,
{
    Seq::new(
        codes.len(),
        |i: int|
            if 0 <= i < codes.len() {
                code_view(codes[i])
            } else {
                CodeView::Empty
            },
    )
}

impl View for Code {
    type V = CodeView;

    open spec fn view(&self) -> CodeView {
        code_view(*self)
    }
}

/// A copy of a list of pieces of code.
pub fn clone_codes(codes: &Vec<Code>) -> (copy: Vec<Code>)
    ensures
        codes_view(copy@) == codes_view(codes@),
    decreases codes,
{
    let mut copy: Vec<Code> = Vec::new();
    let mut i: usize = 0;
    while i < codes.len()
        invariant
            i <= codes.len(),
            copy.len() == i,
            forall|j: int| 0 <= j < i ==> copy[j]@ == codes[j]@,
        decreases codes.len() - i,
    {
        copy.push(clone_code(&codes[i]));
        i += 1;
    }
    assert(codes_view(copy@) =~= codes_view(codes@));
    copy
}

/// A copy of a piece of code.
pub fn clone_code(code: &Code) -> (copy: Code)
    ensures
        copy@ == code@,
    decreases code,
{
    match code {
        Code::Empty => Code::Empty,
        Code::Block(statements) => Code::Block(clone_codes(statements)),
        Code::Struct(values) => Code::Struct(clone_codes(values)),
        Code::Expr(text) => Code::Expr(text.clone()),
        Code::Statement(text) => Code::Statement(text.clone()),
        Code::If { condition, consequent, alternative } => Code::If {
            condition: Box::new(clone_code(condition)),
            consequent: Box::new(clone_code(consequent)),
            alternative: Box::new(clone_code(alternative)),
        },
        Code::Func { name, args, return_type, body, lambda } => Code::Func {
            name: name.clone(),
            args: Box::new(clone_code(args)),
            return_type: return_type.clone(),
            body: Box::new(clone_code(body)),
            lambda: *lambda,
        },
    }
}

impl Clone for Code {
    fn clone(&self) -> (copy: Code)
        ensures
            copy@ == self@,
    {
        clone_code(self)
    }
}

// ---------------------------------------------------------------------
// Putting code together
// ---------------------------------------------------------------------
/// What is made of the expression that a piece of code ends in.
#[derive(Debug)]
pub enum Wrap {
    /// `before(expression)`, as an expression.
    Call { before: String },
    /// `before(left mid expression)`, as an expression.
    Join { before: String, left: String, mid: String },
    /// `const auto name = expression`, as a statement.
    Define { name: String },
    /// `return expression`, as a statement.
    Return,
}

/// The mathematical value of a [`Wrap`].
pub ghost enum WrapView {
    Call { before: Seq<char> },
    Join { before: Seq<char>, left: Seq<char>, mid: Seq<char> },
    Define { name: Seq<char> },
    Return,
}

impl View for Wrap {
    type V = WrapView;

    open spec fn view(&self) -> WrapView {
        match self {
            Wrap::Call { before } => WrapView::Call { before: before@ },
            Wrap::Join { before, left, mid } => WrapView::Join {
                before: before@,
                left: left@,
                mid: mid@,
            },
            Wrap::Define { name } => WrapView::Define { name: name@ },
            Wrap::Return => WrapView::Return,
        }
    }
}

/// The code that a wrapper makes of an expression.
pub open spec fn wrapped(wrap: WrapView, expr: Seq<char>) -> CodeView {
    match wrap {
        WrapView::Call { before } => CodeView::Expr(before + "("@ + expr + ")"@),
        WrapView::Join { before, left, mid } => CodeView::Expr(
            before + "("@ + left + mid + expr + ")"@,
        ),
        WrapView::Define { name } => CodeView::Statement("const auto "@ + name + " = "@ + expr),
        WrapView::Return => CodeView::Statement("return "@ + expr),
    }
}

/// Whether the place where the code ends can be found: no block on the
/// way to it is empty.
pub open spec fn has_end(code: CodeView) -> bool
    decreases code,
{
    match code {
        CodeView::Block(statements) => statements.len() > 0 && has_end(statements.last()),
        CodeView::Func { body, .. } => has_end(*body),
        _ => true,
    }
}

/// The code with the expression that it ends in wrapped: the end of a
/// block is the end of its last statement, the end of a function that of
/// its body; code that ends in no expression stays as it is.
pub open spec fn with_wrapped_end(code: CodeView, wrap: WrapView) -> CodeView
    decreases code,
{
    match code {
        CodeView::Expr(expr) => wrapped(wrap, expr),
        CodeView::Block(statements) => if statements.len() > 0 {
            CodeView::Block(
                statements.drop_last().push(with_wrapped_end(statements.last(), wrap)),
            )
        } else {
            code
        },
        CodeView::Func { name, args, return_type, body, lambda } => CodeView::Func {
            name,
            args,
            return_type,
            body: Box::new(with_wrapped_end(*body, wrap)),
            lambda,
        },
        _ => code,
    }
}

/// The code as a statement: an expression becomes one, other code stays.
pub open spec fn as_statement(code: CodeView) -> CodeView {
    match code {
        CodeView::Expr(expr) => CodeView::Statement(expr),
        _ => code,
    }
}

/// The statements with each expression among them made a statement.
pub open spec fn as_statements(codes: Seq<CodeView>) -> Seq<CodeView> {
    Seq::new(codes.len(), |i: int| as_statement(codes[i]))
}

/// One piece of code after another. Nothing joined to code is that code;
/// blocks are joined into one block; what stands before the last piece
/// is made a statement where it is an expression.
pub open spec fn merged_code(left: CodeView, right: CodeView) -> CodeView {
    match (left, right) {
        (CodeView::Empty, _) => right,
        (_, CodeView::Empty) => left,
        (CodeView::Block(first), CodeView::Block(second)) => CodeView::Block(first + second),
        (_, CodeView::Block(second)) => CodeView::Block(seq![as_statement(left)] + second),
        (CodeView::Block(first), _) => CodeView::Block(as_statements(first).push(right)),
        (_, _) => CodeView::Block(seq![as_statement(left), right]),
    }
}

fn concat2(a: &str, b: &str) -> (text: String)
    ensures
        text@ == a@ + b@,
{
    let mut text = String::from_str(a);
    text.append(b);
    text
}

fn wrap_expr(wrap: &Wrap, expr: String) -> (code: Code)
    ensures
        code@ == wrapped(wrap@, expr@),
{
    match wrap {
        Wrap::Call { before } => {
            let mut text = concat2(before.as_str(), "(");
            text.append(expr.as_str());
            text.append(")");
            Code::Expr(text)
        },
        Wrap::Join { before, left, mid } => {
            let mut text = concat2(before.as_str(), "(");
            text.append(left.as_str());
            text.append(mid.as_str());
            text.append(expr.as_str());
            text.append(")");
            Code::Expr(text)
        },
        Wrap::Define { name } => {
            let mut text = concat2("const auto ", name.as_str());
            text.append(" = ");
            text.append(expr.as_str());
            Code::Statement(text)
        },
        Wrap::Return => Code::Statement(concat2("return ", expr.as_str())),
    }
}

fn statement_of(code: Code) -> (statement: Code)
    ensures
        statement@ == as_statement(code@),
{
    match code {
        Code::Expr(expr) => Code::Statement(expr),
        other => other,
    }
}

impl Code {
    /// Whether the place where the code ends can be found; see
    /// [`has_end`].
    pub fn ends_somewhere(&self) -> (found: bool)
        ensures
            found == has_end(self@),
        decreases self,
    {
        match self {
            Code::Block(statements) => {
                let ghost views = codes_view(statements@);
                assert(views.len() == statements.len());
                if statements.len() == 0 {
                    false
                } else {
                    assert(views.last() == statements[statements.len() - 1]@);
                    statements[statements.len() - 1].ends_somewhere()
                }
            },
            Code::Func { body, .. } => body.ends_somewhere(),
            _ => true,
        }
    }

    /// Wraps the expression that the code ends in; see
    /// [`with_wrapped_end`].
    pub fn with_expr(self, wrap: &Wrap) -> (code: Code)
        requires
            has_end(self@),
        ensures
            code@ == with_wrapped_end(self@, wrap@),
        decreases self,
    {
        match self {
            Code::Expr(expr) => wrap_expr(wrap, expr),
            Code::Block(statements) => {
                let ghost before = codes_view(statements@);
                let mut statements = statements;
                let last = statements.pop().unwrap();
                assert(codes_view(statements@) =~= before.drop_last());
                assert(last@ == before.last());
                let ghost rest = codes_view(statements@);
                let wrapped_last = last.with_expr(wrap);
                statements.push(wrapped_last);
                assert(codes_view(statements@) =~= rest.push(wrapped_last@));
                Code::Block(statements)
            },
            Code::Func { name, args, return_type, body, lambda } => {
                let body = Box::new((*body).with_expr(wrap));
                Code::Func { name, args, return_type, body, lambda }
            },
            other => other,
        }
    }

    /// Puts `other` behind this code; see [`merged_code`].
    pub fn merge(self, other: Code) -> (code: Code)
        ensures
            code@ == merged_code(self@, other@),
    {
        match (self, other) {
            (Code::Empty, right) => right,
            (left, Code::Empty) => left,
            (Code::Block(left), Code::Block(right)) => {
                let ghost first = codes_view(left@);
                let ghost second = codes_view(right@);
                let mut left = left;
                let mut right = right;
                left.append(&mut right);
                assert(codes_view(left@) =~= first + second);
                Code::Block(left)
            },
            (left, Code::Block(right)) => {
                let ghost second = codes_view(right@);
                let ghost head = as_statement(left@);
                let mut right = right;
                right.insert(0, statement_of(left));
                assert(codes_view(right@) =~= seq![head] + second);
                Code::Block(right)
            },
            (Code::Block(left), right) => {
                let ghost first = codes_view(left@);
                let mut lines: Vec<Code> = Vec::new();
                let mut left = left;
                let mut i: usize = 0;
                while i < left.len()
                    invariant
                        i <= left.len(),
                        lines.len() == i,
                        codes_view(left@) == first,
                        forall|j: int| 0 <= j < i ==> lines[j]@ == as_statement(first[j]),
                    decreases left.len() - i,
                {
                    lines.push(statement_of(clone_code(&left[i])));
                    i += 1;
                }
                let ghost statements = codes_view(lines@);
                assert(statements =~= as_statements(first));
                lines.push(right);
                assert(codes_view(lines@) =~= statements.push(right@));
                Code::Block(lines)
            },
            (left, right) => {
                let ghost l = left@;
                let ghost r = right@;
                let lines = vec![statement_of(left), right];
                assert(codes_view(lines@) =~= seq![as_statement(l), r]);
                Code::Block(lines)
            },
        }
    }
}

// ---------------------------------------------------------------------
// Names and text
// ---------------------------------------------------------------------
/// The name that the definition at `path` has in generated code: the
/// segments of the path with `_` between them.
pub open spec fn name_of(path: PathView) -> Seq<char> {
    joined_path(path, "_"@)
}

/// The name that a definition has in generated code.
pub fn make_name(def: Vec<Symbol>) -> (name: String)
    ensures
        name@ == name_of(path_view(def@)),
{
    join_path(&def, "_")
}

/// The texts of pieces of code one after another, with `between` between
/// them.
pub open spec fn rendered_list(
    codes: Seq<CodeView>,
    indent: Seq<char>,
    between: Seq<char>,
) -> Seq<char>
    decreases codes, 0int,
{
    if codes.len() == 0 {
        Seq::empty()
    } else if codes.len() == 1 {
        rendered(codes[0], indent)
    } else {
        rendered_list(codes.drop_last(), indent, between) + between + rendered(
            codes.last(),
            indent,
        )
    }
}

/// A block: its statements in braces, two spaces further in.
pub open spec fn rendered_block(statements: Seq<CodeView>, indent: Seq<char>) -> Seq<char>
    decreases statements, 1int,
{
    "{"@ + rendered_list(statements, indent + "  "@, ""@) + indent + "}"@
}

/// The text of a piece of code that stands `indent` in.
pub open spec fn rendered(code: CodeView, indent: Seq<char>) -> Seq<char>
    decreases code, 2int,
{
    match code {
        CodeView::Empty => Seq::empty(),
        CodeView::Block(statements) => rendered_block(statements, indent),
        CodeView::Struct(values) => "{"@ + rendered_list(values, indent + "  "@, ", "@) + indent
            + "}"@,
        CodeView::Expr(line) => line,
        CodeView::Statement(line) => indent + line + ";"@,
        CodeView::If { condition, consequent, alternative } => indent + "if("@ + rendered(
            *condition,
            indent,
        ) + ") "@ + rendered(*consequent, indent) + " else "@ + rendered(*alternative, indent),
        CodeView::Func { name, args, return_type, body, lambda } => {
            let body_text = match *body {
                CodeView::Block(statements) => rendered_block(statements, indent),
                _ => "{"@ + rendered(*body, indent + "  "@) + indent + "}"@,
            };
            let args_text = rendered(*args, indent + "  "@);
            if lambda {
                indent + "const auto "@ + name + " = [&]("@ + args_text + ") "@ + body_text + ";"@
            } else {
                indent + return_type + " "@ + name + "("@ + args_text + ") "@ + body_text
            }
        },
    }
}

fn print_list(codes: &Vec<Code>, indent: &str, between: &str) -> (text: String)
    ensures
        text@ == rendered_list(codes_view(codes@), indent@, between@),
    decreases codes, 0int,
{
    let ghost all = codes_view(codes@);
    let mut text = String::new();
    let mut i: usize = 0;
    assert(all.take(0) =~= Seq::<CodeView>::empty());
    while i < codes.len()
        invariant
            i <= codes.len(),
            all == codes_view(codes@),
            text@ == rendered_list(all.take(i as int), indent@, between@),
        decreases codes.len() - i,
    {
        proof {
            assert(all.take(i as int + 1).drop_last() =~= all.take(i as int));
            assert(all.take(i as int + 1).last() == codes[i as int]@);
            if i == 0 {
                assert(all.take(1)[0] == codes[0]@);
            }
        }
        let ghost had = text@;
        if i > 0 {
            text.append(between);
        }
        let item = pretty_print_block(&codes[i], indent);
        text.append(item.as_str());
        proof {
            if i == 0 {
                assert(had + item@ =~= item@);
            }
        }
        i += 1;
    }
    assert(all.take(i as int) =~= all);
    text
}

fn print_block(statements: &Vec<Code>, indent: &str) -> (text: String)
    ensures
        text@ == rendered_block(codes_view(statements@), indent@),
    decreases statements, 1int,
{
    let inner = concat2(indent, "  ");
    let body = print_list(statements, inner.as_str(), "");
    let mut text = concat2("{", body.as_str());
    text.append(indent);
    text.append("}");
    text
}

/// The text of a piece of code that stands `indent` in; see
/// [`rendered`].
pub fn pretty_print_block(src: &Code, indent: &str) -> (text: String)
    ensures
        text@ == rendered(src@, indent@),
    decreases src, 2int,
{
    proof {
        reveal_with_fuel(code_view, 2);
    }
    match src {
        Code::Empty => String::new(),
        Code::Block(statements) => print_block(statements, indent),
        Code::Struct(values) => {
            let inner = concat2(indent, "  ");
            let body = print_list(values, inner.as_str(), ", ");
            let mut text = concat2("{", body.as_str());
            text.append(indent);
            text.append("}");
            text
        },
        Code::Expr(line) => line.clone(),
        Code::Statement(line) => {
            let mut text = concat2(indent, line.as_str());
            text.append(";");
            text
        },
        Code::If { condition, consequent, alternative } => {
            let mut text = concat2(indent, "if(");
            text.append(pretty_print_block(condition, indent).as_str());
            text.append(") ");
            text.append(pretty_print_block(consequent, indent).as_str());
            text.append(" else ");
            text.append(pretty_print_block(alternative, indent).as_str());
            text
        },
        Code::Func { name, args, return_type, body, lambda } => {
            let inner = concat2(indent, "  ");
            let body_text = match &**body {
                Code::Block(statements) => print_block(statements, indent),
                other => {
                    let mut text = concat2("{", pretty_print_block(other, inner.as_str()).as_str());
                    text.append(indent);
                    text.append("}");
                    text
                },
            };
            let args_text = pretty_print_block(args, inner.as_str());
            if *lambda {
                let mut text = concat2(indent, "const auto ");
                text.append(name.as_str());
                text.append(" = [&](");
                text.append(args_text.as_str());
                text.append(") ");
                text.append(body_text.as_str());
                text.append(";");
                text
            } else {
                let mut text = concat2(indent, return_type.as_str());
                text.append(" ");
                text.append(name.as_str());
                text.append("(");
                text.append(args_text.as_str());
                text.append(") ");
                text.append(body_text.as_str());
                text
            }
        },
    }
}

// ---------------------------------------------------------------------
// The generator
// ---------------------------------------------------------------------
/// What a code generator gathers while it walks a tree: the functions to
/// declare, the lines to include and the flags for the compiler.
#[derive(Debug)]
pub struct CodeGenerator {
    pub functions: Vec<Code>,
    pub includes: Vec<String>,
    pub flags: Vec<String>,
}

impl Default for CodeGenerator {
    fn default() -> (generator: CodeGenerator)
        ensures
            generator.functions@.len() == 0,
            generator.includes@.len() == 0,
            generator.flags@.len() == 0,
    {
        CodeGenerator { functions: Vec::new(), includes: Vec::new(), flags: Vec::new() }
    }
}

impl CodeGenerator {
    /// The call of `before` on the expression that `inner` ends in.
    pub fn build_call1(&self, before: &str, inner: Code) -> (code: Code)
        requires
            has_end(inner@),
        ensures
            code@ == with_wrapped_end(inner@, WrapView::Call { before: before@ }),
    {
        inner.with_expr(&Wrap::Call { before: String::from_str(before) })
    }

    /// Where both `left` and `right` are expressions: the call of
    /// `before` on the two with `mid` between them. See [`call2`] for code
    /// of other shapes.
    pub fn build_call2(&self, before: &str, mid: &str, left: Code, right: Code) -> (code: Code)
        requires
            has_end(left@),
            has_end(right@),
        ensures
            code@ == call2(before@, mid@, left@, right@),
        decreases left,
    {
        match left {
            Code::Expr(left_expr) => right.with_expr(
                &Wrap::Join {
                    before: String::from_str(before),
                    left: left_expr,
                    mid: String::from_str(mid),
                },
            ),
            Code::Block(statements) => {
                let ghost all = codes_view(statements@);
                let mut statements = statements;
                let last = statements.pop().unwrap();
                assert(codes_view(statements@) =~= all.drop_last());
                assert(last@ == all.last());
                let ghost rest = codes_view(statements@);
                let joined = self.build_call2(before, mid, last, right);
                statements.push(joined);
                assert(codes_view(statements@) =~= rest.push(joined@));
                Code::Block(statements)
            },
            Code::Func { name, args, return_type, body, lambda } => {
                let body = Box::new(self.build_call2(before, mid, *body, right));
                Code::Func { name, args, return_type, body, lambda }
            },
            other => other,
        }
    }
}

/// The code `left` with the expression that it ends in joined to the one
/// that `right` ends in, as arguments of a call of `before`.
pub open spec fn call2(before: Seq<char>, mid: Seq<char>, left: CodeView, right: CodeView) -> CodeView
    decreases left,
{
    match left {
        CodeView::Expr(left_expr) => with_wrapped_end(
            right,
            WrapView::Join { before, left: left_expr, mid },
        ),
        CodeView::Block(statements) => if statements.len() > 0 {
            CodeView::Block(
                statements.drop_last().push(call2(before, mid, statements.last(), right)),
            )
        } else {
            left
        },
        CodeView::Func { name, args, return_type, body, lambda } => CodeView::Func {
            name,
            args,
            return_type,
            body: Box::new(call2(before, mid, *body, right)),
            lambda,
        },
        _ => left,
    }
}

} // verus!
