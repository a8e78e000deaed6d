//! The operator-precedence parser.
//!
//! `nud` reads an expression that has nothing to its left, `led` extends an
//! expression by what follows it, and `expr` runs the two while what follows
//! binds tighter than the caller asked for. What each of them returns is
//! stated by a function on token sequences of the same name.

use crate::ast::{
    clone_node, info_of, lets_view, no_info, node_view, sym_as_let, with_info, Abs, AbsView, Apply,
    ApplyView, BinOp, BinOpView, ErrNode, ErrNodeView, Info, InfoView, Let, LetView, Node,
    NodeView, Sym, SymView, UnOp, UnOpView,
};
use crate::errors::{ParseFault, ParseFaultView, TError, TErrorView};
use crate::externs::{Direction, ExternTable, Semantic, FUNCTION_BINDING_POWER};
use crate::location::LocView;
use crate::primitives::{Prim, PrimView};
use crate::tokens::{info_at, tokens_view, Token, TokenType, TokenView};
use std::collections::VecDeque;
use vstd::prelude::*;

verus! {

/// The names of an operator environment, each with how it takes its
/// arguments.
pub type Operators = Map<Seq<char>, Semantic>;

/// A tree and the tokens that follow it, or the reason why there is none.
pub type Parsed = Result<(NodeView, Seq<TokenView>), TErrorView>;

/// The mathematical value of what a parsing function returns.
pub open spec fn parsed_view(r: Result<(Node, VecDeque<Token>), TError>) -> Parsed {
    match r {
        Ok((node, toks)) => Ok((node@, tokens_view(toks@))),
        Err(e) => Err(e@),
    }
}

/// All but the first token.
pub open spec fn rest_of(toks: Seq<TokenView>) -> Seq<TokenView> {
    toks.subrange(1, toks.len() as int)
}

// ---------------------------------------------------------------------
// Operator metadata
// ---------------------------------------------------------------------
/// How the text of a token takes its arguments. A token that the
/// environment does not hold is a function, unless it was read as an
/// operator: an unknown operator is an error.
pub open spec fn spec_binding(ops: Operators, tok: TokenView) -> Result<Semantic, TErrorView> {
    if ops.contains_key(tok.value) {
        Ok(ops[tok.value])
    } else if tok.tok_type == TokenType::Op {
        Err(TErrorView::UnknownInfixOperator(tok.value, info_at(tok.pos)))
    } else {
        Ok(Semantic::Func)
    }
}

/// The side to which a token groups: a function groups to the left.
pub open spec fn spec_binding_dir(ops: Operators, tok: TokenView) -> Result<Direction, TErrorView> {
    match spec_binding(ops, tok) {
        Ok(Semantic::Operator { assoc, .. }) => Ok(assoc),
        Ok(Semantic::Func) => Ok(Direction::Left),
        Err(e) => Err(e),
    }
}

/// The binding power of a token: that of a function is the highest.
pub open spec fn spec_binding_power(ops: Operators, tok: TokenView) -> Result<int, TErrorView> {
    match spec_binding(ops, tok) {
        Ok(Semantic::Operator { binding, .. }) => Ok(binding as int),
        Ok(Semantic::Func) => Ok(FUNCTION_BINDING_POWER as int),
        Err(e) => Err(e),
    }
}

/// How the text of a token takes its arguments; see [`spec_binding`].
pub fn binding(env: &ExternTable, tok: &Token) -> (r: Result<Semantic, TError>)
    ensures
        match r {
            Ok(semantic) => spec_binding(env.operators(), tok@) == Ok::<Semantic, TErrorView>(
                semantic,
            ),
            Err(e) => spec_binding(env.operators(), tok@) == Err::<Semantic, TErrorView>(e@),
        },
{
    match env.semantic(&tok.value) {
        Some(semantic) => Ok(semantic),
        None => {
            if tok.tok_type == TokenType::Op {
                Err(TError::UnknownInfixOperator(tok.value.clone(), tok.get_info()))
            } else {
                Ok(Semantic::Func)
            }
        },
    }
}

/// The side to which a token groups.
pub fn binding_dir(env: &ExternTable, tok: &Token) -> (r: Result<Direction, TError>)
    ensures
        match r {
            Ok(assoc) => spec_binding_dir(env.operators(), tok@) == Ok::<Direction, TErrorView>(
                assoc,
            ),
            Err(e) => spec_binding_dir(env.operators(), tok@) == Err::<Direction, TErrorView>(e@),
        },
{
    match binding(env, tok) {
        Ok(Semantic::Operator { assoc, .. }) => Ok(assoc),
        Ok(Semantic::Func) => Ok(Direction::Left),
        Err(e) => Err(e),
    }
}

/// The binding power of a token.
pub fn binding_power(env: &ExternTable, tok: &Token) -> (r: Result<i32, TError>)
    ensures
        match r {
            Ok(power) => spec_binding_power(env.operators(), tok@) == Ok::<int, TErrorView>(
                power as int,
            ),
            Err(e) => spec_binding_power(env.operators(), tok@) == Err::<int, TErrorView>(e@),
        },
{
    match binding(env, tok) {
        Ok(Semantic::Operator { binding, .. }) => Ok(binding),
        Ok(Semantic::Func) => Ok(FUNCTION_BINDING_POWER),
        Err(e) => Err(e),
    }
}

// ---------------------------------------------------------------------
// Number literals
// ---------------------------------------------------------------------
/// Whether a character is a decimal digit.
pub open spec fn is_digit(c: char) -> bool {
    '0' <= c && c <= '9'
}

/// The number that a sequence of decimal digits writes.
pub open spec fn digits_value(text: Seq<char>) -> int
    decreases text.len(),
{
    if text.len() == 0 {
        0
    } else {
        digits_value(text.drop_last()) * 10 + (text.last() as int - '0' as int)
    }
}

/// The value of a number literal: its text is one or more decimal digits
/// and writes a number of 32 bits.
pub open spec fn decimal_value(text: Seq<char>) -> Option<i32> {
    if text.len() > 0 && (forall|i: int| 0 <= i < text.len() ==> is_digit(#[trigger] text[i]))
        && digits_value(text) <= i32::MAX {
        Some(digits_value(text) as i32)
    } else {
        None
    }
}

proof fn lemma_digits_grow(text: Seq<char>, n: int)
    requires
        0 <= n <= text.len(),
        forall|i: int| 0 <= i < text.len() ==> is_digit(#[trigger] text[i]),
    ensures
        0 <= digits_value(text.take(n)) <= digits_value(text),
    decreases text.len() - n,
{
    if n == text.len() {
        assert(text.take(n) =~= text);
        lemma_digits_nonnegative(text);
    } else {
        lemma_digits_grow(text, n + 1);
        let longer = text.take(n + 1);
        assert(longer.drop_last() =~= text.take(n));
        assert(is_digit(text[n]));
        assert(longer.last() == text[n]);
        lemma_digits_nonnegative(text.take(n));
    }
}

proof fn lemma_digits_nonnegative(text: Seq<char>)
    requires
        forall|i: int| 0 <= i < text.len() ==> is_digit(#[trigger] text[i]),
    ensures
        0 <= digits_value(text),
    decreases text.len(),
{
    if text.len() > 0 {
        lemma_digits_nonnegative(text.drop_last());
        assert(is_digit(text[text.len() - 1]));
    }
}

/// Reads a number literal.
pub fn parse_number(text: &String) -> (value: Option<i32>)
    ensures
        value == decimal_value(text@),
{
    let len = text.as_str().unicode_len();
    if len == 0 {
        return None;
    }
    let mut acc: i64 = 0;
    let mut i: usize = 0;
    while i < len
        invariant
            len == text@.len(),
            i <= len,
            forall|j: int| 0 <= j < i ==> is_digit(#[trigger] text@[j]),
            acc == digits_value(text@.take(i as int)),
            0 <= acc <= i32::MAX,
        decreases len - i,
    {
        let c = text.as_str().get_char(i);
        if !('0' <= c && c <= '9') {
            assert(!is_digit(text@[i as int]));
            return None;
        }
        let digit = (c as u32 - '0' as u32) as i64;
        proof {
            assert(text@.take(i as int + 1).drop_last() =~= text@.take(i as int));
            assert(text@.take(i as int + 1).last() == c);
        }
        acc = acc * 10 + digit;
        i += 1;
        if acc > i32::MAX as i64 {
            proof {
                if forall|j: int| 0 <= j < text@.len() ==> is_digit(#[trigger] text@[j]) {
                    lemma_digits_grow(text@, i as int);
                }
            }
            return None;
        }
    }
    proof {
        assert(text@.take(len as int) =~= text@);
    }
    Some(acc as i32)
}

// ---------------------------------------------------------------------
// Brackets
// ---------------------------------------------------------------------
/// Whether the closing bracket `close` closes the opening bracket `open`.
pub open spec fn brackets_match(open: Seq<char>, close: Seq<char>) -> bool {
    ||| (open == "("@ && close == ")"@)
    ||| (open == "["@ && close == "]"@)
    ||| (open == "{"@ && close == "}"@)
}

/// What is wrong where the contents of the bracket `open` end and `toks`
/// follow: nothing, if `toks` begins with the bracket that closes it.
pub open spec fn bracket_fault(open: TokenView, toks: Seq<TokenView>) -> Option<TErrorView> {
    if toks.len() > 0 && toks[0].tok_type == TokenType::CloseBracket {
        if brackets_match(open.value, toks[0].value) {
            None
        } else {
            Some(
                TErrorView::ParseError(
                    ParseFaultView::MismatchedBracket { open: open.value, found: toks[0].value },
                    info_at(open.pos),
                ),
            )
        }
    } else {
        Some(
            TErrorView::ParseError(
                ParseFaultView::UnclosedBracket {
                    open: open.value,
                    next: if toks.len() > 0 {
                        Some(toks[0])
                    } else {
                        None
                    },
                },
                info_at(open.pos),
            ),
        )
    }
}

/// Whether a text is the given literal.
pub fn text_is(text: &String, literal: &str) -> (same: bool)
    ensures
        same == (text@ == literal@),
{
    let other = String::from_str(literal);
    *text == other
}

fn closes(open: &String, close: &String) -> (matching: bool)
    ensures
        matching == brackets_match(open@, close@),
{
    (text_is(open, "(") && text_is(close, ")")) || (text_is(open, "[") && text_is(close, "]")) || (
    text_is(open, "{") && text_is(close, "}"))
}

fn check_closed(open: &Token, toks: &VecDeque<Token>) -> (fault: Option<TError>)
    ensures
        match fault {
            Some(e) => bracket_fault(open@, tokens_view(toks@)) == Some(e@),
            None => bracket_fault(open@, tokens_view(toks@)) is None,
        },
{
    if toks.len() > 0 && toks[0].tok_type == TokenType::CloseBracket {
        if closes(&open.value, &toks[0].value) {
            None
        } else {
            Some(
                TError::ParseError(
                    ParseFault::MismatchedBracket {
                        open: open.value.clone(),
                        found: toks[0].value.clone(),
                    },
                    open.get_info(),
                ),
            )
        }
    } else {
        let next = if toks.len() > 0 {
            Some(toks[0].clone())
        } else {
            None
        };
        Some(
            TError::ParseError(
                ParseFault::UnclosedBracket { open: open.value.clone(), next },
                open.get_info(),
            ),
        )
    }
}

// ---------------------------------------------------------------------
// Argument lists
// ---------------------------------------------------------------------
/// The bindings that the contents of an argument list make: the list is
/// split at every `,`, also where one list of commas stands in another; a
/// bare name is bound to itself, a binding stands as it is, and any other
/// expression is bound to `it`.
pub open spec fn spec_get_defs(args: NodeView) -> Seq<LetView>
    decreases args,
{
    match args {
        NodeView::SymNode(s) => seq![sym_as_let(s)],
        NodeView::LetNode(l) => seq![l],
        NodeView::BinOpNode(b) => if b.name == ","@ {
            spec_get_defs(*b.left) + spec_get_defs(*b.right)
        } else {
            seq![implicit_binding(args)]
        },
        _ => seq![implicit_binding(args)],
    }
}

/// The binding of `it` to an expression.
pub open spec fn implicit_binding(value: NodeView) -> LetView {
    LetView { name: "it"@, value: Box::new(value), args: None, info: info_of(value) }
}

fn bind_implicitly(value: Node) -> (defs: Vec<Let>)
    ensures
        lets_view(defs@) == seq![implicit_binding(value@)],
{
    let info = value.get_info();
    let binding = Let { name: String::from_str("it"), value: Box::new(value), args: None, info };
    let defs = vec![binding];
    assert(lets_view(defs@) =~= seq![implicit_binding(value@)]);
    defs
}

/// The bindings of an argument list; see [`spec_get_defs`].
pub fn get_defs(args: Node) -> (defs: Vec<Let>)
    ensures
        lets_view(defs@) == spec_get_defs(args@),
    decreases args,
{
    match args {
        Node::SymNode(s) => {
            let defs = vec![s.as_let()];
            assert(lets_view(defs@) =~= seq![sym_as_let(s@)]);
            defs
        },
        Node::LetNode(l) => {
            let ghost view = l@;
            let defs = vec![l];
            assert(lets_view(defs@) =~= seq![view]);
            defs
        },
        Node::BinOpNode(b) => {
            if text_is(&b.name, ",") {
                let mut left = get_defs(*b.left);
                let mut right = get_defs(*b.right);
                let ghost left_view = lets_view(left@);
                let ghost right_view = lets_view(right@);
                left.append(&mut right);
                assert(lets_view(left@) =~= left_view + right_view);
                left
            } else {
                bind_implicitly(Node::BinOpNode(b))
            }
        },
        other => bind_implicitly(other),
    }
}

// ---------------------------------------------------------------------
// Operators with a meaning of their own
// ---------------------------------------------------------------------
/// The tree that the operator token `head` makes of what stands to its left
/// and to its right. `:` gives the left tree the right one as its type, `|-`
/// abstracts over a bare name, `=` binds a bare name or a bare name applied,
/// and any other operator makes a binary operation.
pub open spec fn spec_operation(head: TokenView, left: NodeView, right: NodeView) -> Result<
    NodeView,
    TErrorView,
> {
    let info = info_at(head.pos);
    if head.value == ":"@ {
        Ok(with_info(left, InfoView { ty: Some(Box::new(right)), ..info_of(left) }))
    } else if head.value == "|-"@ {
        match left {
            NodeView::SymNode(s) => Ok(
                NodeView::AbsNode(AbsView { name: s.name, value: Box::new(right), info }),
            ),
            _ => Err(TErrorView::ParseError(ParseFaultView::CannotAbstractOver(left), info)),
        }
    } else if head.value == "="@ {
        match left {
            NodeView::SymNode(s) => Ok(
                NodeView::LetNode(
                    LetView { name: s.name, value: Box::new(right), args: None, info },
                ),
            ),
            NodeView::ApplyNode(a) => match *a.inner {
                NodeView::SymNode(s) => Ok(
                    NodeView::LetNode(
                        LetView { name: s.name, value: Box::new(right), args: Some(a.args), info },
                    ),
                ),
                _ => Err(TErrorView::ParseError(ParseFaultView::CannotAssignTo(left), info)),
            },
            _ => Err(TErrorView::ParseError(ParseFaultView::CannotAssignTo(left), info)),
        }
    } else {
        Ok(
            NodeView::BinOpNode(
                BinOpView { name: head.value, left: Box::new(left), right: Box::new(right), info },
            ),
        )
    }
}

/// Applies an operator token to what stands on its two sides; see
/// [`spec_operation`].
pub fn operation(head: Token, left: Node, right: Node) -> (r: Result<Node, TError>)
    ensures
        match r {
            Ok(node) => spec_operation(head@, left@, right@) == Ok::<NodeView, TErrorView>(node@),
            Err(e) => spec_operation(head@, left@, right@) == Err::<NodeView, TErrorView>(e@),
        },
{
    proof {
        reveal_with_fuel(node_view, 2);
    }
    let info = head.get_info();
    if text_is(&head.value, ":") {
        let mut typed = left.get_info();
        typed.ty = Some(Box::new(right));
        Ok(left.set_info(typed))
    } else if text_is(&head.value, "|-") {
        match left {
            Node::SymNode(s) => Ok(
                Node::AbsNode(Abs { name: s.name, value: Box::new(right), info }),
            ),
            other => Err(TError::ParseError(ParseFault::CannotAbstractOver(Box::new(other)), info)),
        }
    } else if text_is(&head.value, "=") {
        match left {
            Node::SymNode(s) => Ok(
                Node::LetNode(Let { name: s.name, value: Box::new(right), args: None, info }),
            ),
            Node::ApplyNode(a) => {
                let Apply { inner, args, info: apply_info } = a;
                match *inner {
                    Node::SymNode(s) => Ok(
                        Node::LetNode(
                            Let { name: s.name, value: Box::new(right), args: Some(args), info },
                        ),
                    ),
                    other => Err(
                        TError::ParseError(
                            ParseFault::CannotAssignTo(
                                Box::new(
                                    Node::ApplyNode(
                                        Apply { inner: Box::new(other), args, info: apply_info },
                                    ),
                                ),
                            ),
                            info,
                        ),
                    ),
                }
            },
            other => Err(TError::ParseError(ParseFault::CannotAssignTo(Box::new(other)), info)),
        }
    } else {
        Ok(
            Node::BinOpNode(
                BinOp { name: head.value, left: Box::new(left), right: Box::new(right), info },
            ),
        )
    }
}

// ---------------------------------------------------------------------
// The parser
// ---------------------------------------------------------------------
/// The `,` that is put between two expressions that stand side by side.
pub open spec fn comma_at(pos: LocView) -> TokenView {
    TokenView { tok_type: TokenType::Op, value: ","@, pos }
}

/// Whether a token of this class begins an expression: a literal or a
/// name.
pub open spec fn starts_expression(tok_type: TokenType) -> bool {
    tok_type == TokenType::NumLit || tok_type == TokenType::StringLit || tok_type
        == TokenType::Sym
}

/// A bound on the work left when an expression is about to be read from
/// `toks`.
pub open spec fn start_weight(toks: Seq<TokenView>) -> int {
    3 * (toks.len() as int)
}

/// A bound on the work left when `toks` follow an expression. A `,` put in
/// by the parser lowers it, although it makes the input longer.
pub open spec fn tail_weight(toks: Seq<TokenView>) -> int {
    if toks.len() == 0 {
        0
    } else if starts_expression(toks[0].tok_type) {
        3 * (toks.len() as int) + 2
    } else if toks[0].tok_type == TokenType::Op {
        3 * (toks.len() as int) - 2
    } else {
        3 * (toks.len() as int)
    }
}

/// The result of a step that cannot be taken. The functions below name it
/// where their recursion needs a bound. The bound always holds, so this is
/// the result of no step: see [`lemma_expr_bounded`].
pub open spec fn out_of_bounds() -> Parsed {
    Err(TErrorView::ParseError(ParseFaultView::InvalidToken, no_info()))
}

/// An expression that has nothing to its left.
pub open spec fn spec_nud(ops: Operators, toks: Seq<TokenView>) -> Parsed
    decreases start_weight(toks), 2int,
{
    if toks.len() == 0 {
        Ok(
            (
                NodeView::Error(
                    ErrNodeView { msg: "Unexpected eof, expected expr"@, info: no_info() },
                ),
                toks,
            ),
        )
    } else {
        let head = toks[0];
        let rest = rest_of(toks);
        let info = info_at(head.pos);
        match head.tok_type {
            TokenType::NumLit => match decimal_value(head.value) {
                Some(n) => Ok((NodeView::PrimNode(PrimView::I32(n), info), rest)),
                None => Err(
                    TErrorView::ParseError(
                        ParseFaultView::InvalidNumber { text: head.value },
                        info,
                    ),
                ),
            },
            TokenType::StringLit => Ok((NodeView::PrimNode(PrimView::Str(head.value), info), rest)),
            TokenType::Op => match spec_binding_power(ops, head) {
                Err(_) => Err(TErrorView::UnknownPrefixOperator(head.value, info)),
                Ok(power) => match spec_expr(ops, rest, power) {
                    Err(e) => Err(e),
                    Ok((right, after)) => Ok(
                        (
                            NodeView::UnOpNode(
                                UnOpView { name: head.value, inner: Box::new(right), info },
                            ),
                            after,
                        ),
                    ),
                },
            },
            TokenType::CloseBracket => Err(
                TErrorView::ParseError(
                    ParseFaultView::UnexpectedCloseBracket { found: head.value },
                    info,
                ),
            ),
            TokenType::OpenBracket => match spec_expr(ops, rest, 0) {
                Err(e) => Err(e),
                Ok((inner, after)) => match bracket_fault(head, after) {
                    Some(e) => Err(e),
                    None => Ok((inner, rest_of(after))),
                },
            },
            TokenType::Sym => if head.value == "true"@ {
                Ok((NodeView::PrimNode(PrimView::Bool(true), no_info()), rest))
            } else if head.value == "false"@ {
                Ok((NodeView::PrimNode(PrimView::Bool(false), no_info()), rest))
            } else {
                Ok((NodeView::SymNode(SymView { name: head.value, depth: None, info }), rest))
            },
            TokenType::Unknown | TokenType::Whitespace => Err(
                TErrorView::ParseError(ParseFaultView::InvalidToken, info),
            ),
        }
    }
}

/// The expression `left` extended by what follows it. Before a closing
/// bracket and at the end of the input there is nothing to extend it by,
/// and the result is an error node. Before a literal or a name a `,` is put
/// into the tokens, and `left` stands as it is.
pub open spec fn spec_led(ops: Operators, toks: Seq<TokenView>, left: NodeView) -> Parsed
    decreases tail_weight(toks), 0int,
{
    if toks.len() == 0 {
        Ok(
            (
                NodeView::Error(
                    ErrNodeView {
                        msg: "Unexpected eof, expected expr tail"@,
                        info: info_of(left),
                    },
                ),
                toks,
            ),
        )
    } else {
        let head = toks[0];
        let rest = rest_of(toks);
        let info = info_at(head.pos);
        match head.tok_type {
            TokenType::CloseBracket => Ok(
                (NodeView::Error(ErrNodeView { msg: "Expected close bracket"@, info }), toks),
            ),
            TokenType::NumLit | TokenType::StringLit | TokenType::Sym => Ok(
                (left, seq![comma_at(head.pos)] + toks),
            ),
            TokenType::Op => match spec_binding_power(ops, head) {
                Err(e) => Err(e),
                Ok(power) => match spec_binding_dir(ops, head) {
                    Err(e) => Err(e),
                    Ok(assoc) => match spec_expr(
                        ops,
                        rest,
                        if assoc == Direction::Right {
                            power - 1
                        } else {
                            power
                        },
                    ) {
                        Err(e) => Err(e),
                        Ok((right, after)) => match spec_operation(head, left, right) {
                            Err(e) => Err(e),
                            Ok(node) => Ok((node, after)),
                        },
                    },
                },
            },
            TokenType::OpenBracket => if rest.len() > 0 && rest[0].tok_type
                == TokenType::CloseBracket && brackets_match(head.value, rest[0].value) {
                Ok(
                    (
                        NodeView::ApplyNode(
                            ApplyView { inner: Box::new(left), args: Seq::empty(), info },
                        ),
                        rest_of(rest),
                    ),
                )
            } else {
                match spec_expr(ops, rest, 0) {
                    Err(e) => Err(e),
                    Ok((args, after)) => match bracket_fault(head, after) {
                        Some(e) => Err(e),
                        None => Ok(
                            (
                                NodeView::ApplyNode(
                                    ApplyView {
                                        inner: Box::new(left),
                                        args: spec_get_defs(args),
                                        info,
                                    },
                                ),
                                rest_of(after),
                            ),
                        ),
                    },
                }
            },
            TokenType::Unknown | TokenType::Whitespace => Err(
                TErrorView::ParseError(ParseFaultView::InvalidToken, info),
            ),
        }
    }
}

/// The expression `left`, extended for as long as what follows binds
/// tighter than `min_power`. An extension that gives an error node ends
/// the expression before it.
pub open spec fn spec_expr_tail(
    ops: Operators,
    toks: Seq<TokenView>,
    left: NodeView,
    min_power: int,
) -> Parsed
    decreases tail_weight(toks), 1int,
{
    if toks.len() == 0 {
        Ok((left, toks))
    } else {
        match spec_binding_power(ops, toks[0]) {
            Err(e) => Err(e),
            Ok(power) => if min_power >= power {
                Ok((left, toks))
            } else {
                match spec_led(ops, toks, left) {
                    Err(e) => Err(e),
                    Ok((node, after)) => if node is Error {
                        Ok((left, after))
                    } else if tail_weight(after) < tail_weight(toks) {
                        spec_expr_tail(ops, after, node, min_power)
                    } else {
                        out_of_bounds()
                    },
                }
            },
        }
    }
}

/// The longest expression at the start of `toks` whose operators all bind
/// tighter than `min_power`, and the tokens that follow it.
pub open spec fn spec_expr(ops: Operators, toks: Seq<TokenView>, min_power: int) -> Parsed
    decreases start_weight(toks), 3int,
{
    match spec_nud(ops, toks) {
        Err(e) => Err(e),
        Ok((left, after)) => if tail_weight(after) <= start_weight(toks) {
            spec_expr_tail(ops, after, left, min_power)
        } else {
            out_of_bounds()
        },
    }
}

/// The tree of a whole input: the expression that `toks` begin with, which
/// nothing may follow.
pub open spec fn spec_parse(ops: Operators, toks: Seq<TokenView>) -> Result<NodeView, TErrorView> {
    match spec_expr(ops, toks, 0) {
        Err(e) => Err(e),
        Ok((root, left_over)) => if left_over.len() > 0 {
            Err(
                TErrorView::ParseError(
                    ParseFaultView::LeftOverTokens(left_over),
                    info_at(left_over[0].pos),
                ),
            )
        } else {
            Ok(root)
        },
    }
}

/// Reads an expression that has nothing to its left.
pub fn nud(env: &ExternTable, toks: VecDeque<Token>) -> (r: Result<(Node, VecDeque<Token>), TError>)
    ensures
        parsed_view(r) == spec_nud(env.operators(), tokens_view(toks@)),
        r matches Ok((_, after)) ==> tail_weight(tokens_view(after@)) <= start_weight(
            tokens_view(toks@),
        ),
    decreases start_weight(tokens_view(toks@)), 2int,
{
    let ghost before = tokens_view(toks@);
    let mut toks = toks;
    if toks.len() == 0 {
        let msg = String::from_str("Unexpected eof, expected expr");
        return Ok((Node::Error(ErrNode { msg, info: Info::default() }), toks));
    }
    let head = toks.pop_front().unwrap();
    assert(tokens_view(toks@) =~= rest_of(before));
    assert(head@ == before[0]);
    let info = head.get_info();
    match head.tok_type {
        TokenType::NumLit => match parse_number(&head.value) {
            Some(n) => Ok((Node::PrimNode(Prim::I32(n), info), toks)),
            None => Err(TError::ParseError(ParseFault::InvalidNumber { text: head.value }, info)),
        },
        TokenType::StringLit => Ok((Node::PrimNode(Prim::Str(head.value), info), toks)),
        TokenType::Op => {
            let power = match binding_power(env, &head) {
                Ok(power) => power,
                Err(_) => {
                    return Err(TError::UnknownPrefixOperator(head.value, info));
                },
            };
            match expr(env, toks, power as i64) {
                Ok((right, after)) => Ok(
                    (Node::UnOpNode(UnOp { name: head.value, inner: Box::new(right), info }), after),
                ),
                Err(e) => Err(e),
            }
        },
        TokenType::CloseBracket => Err(
            TError::ParseError(ParseFault::UnexpectedCloseBracket { found: head.value }, info),
        ),
        TokenType::OpenBracket => {
            match expr(env, toks, 0) {
                Ok((inner, after)) => {
                    let ghost closing = tokens_view(after@);
                    let mut after = after;
                    match check_closed(&head, &after) {
                        Some(e) => Err(e),
                        None => {
                            after.pop_front();
                            assert(tokens_view(after@) =~= rest_of(closing));
                            Ok((inner, after))
                        },
                    }
                },
                Err(e) => Err(e),
            }
        },
        TokenType::Sym => {
            if text_is(&head.value, "true") {
                Ok((Prim::Bool(true).into_node(), toks))
            } else if text_is(&head.value, "false") {
                Ok((Prim::Bool(false).into_node(), toks))
            } else {
                Ok((Node::SymNode(Sym { name: head.value, depth: None, info }), toks))
            }
        },
        TokenType::Unknown | TokenType::Whitespace => Err(
            TError::ParseError(ParseFault::InvalidToken, info),
        ),
    }
}

/// Extends the expression `left` by what follows it.
pub fn led(env: &ExternTable, toks: VecDeque<Token>, left: Node) -> (r: Result<
    (Node, VecDeque<Token>),
    TError,
>)
    ensures
        parsed_view(r) == spec_led(env.operators(), tokens_view(toks@), left@),
        r matches Ok((node, after)) ==> tail_weight(tokens_view(after@)) <= tail_weight(
            tokens_view(toks@),
        ) && (node@ is Error || tail_weight(tokens_view(after@)) < tail_weight(
            tokens_view(toks@),
        )),
    decreases tail_weight(tokens_view(toks@)), 0int,
{
    let ghost before = tokens_view(toks@);
    let mut toks = toks;
    if toks.len() == 0 {
        let msg = String::from_str("Unexpected eof, expected expr tail");
        let info = left.get_info();
        return Ok((Node::Error(ErrNode { msg, info }), toks));
    }
    let head_type = toks[0].tok_type;
    match head_type {
        TokenType::CloseBracket => {
            let msg = String::from_str("Expected close bracket");
            let info = toks[0].get_info();
            Ok((Node::Error(ErrNode { msg, info }), toks))
        },
        TokenType::NumLit | TokenType::StringLit | TokenType::Sym => {
            let comma = Token {
                tok_type: TokenType::Op,
                value: String::from_str(","),
                pos: toks[0].pos.clone(),
            };
            toks.push_front(comma);
            assert(tokens_view(toks@) =~= seq![comma_at(before[0].pos)] + before);
            Ok((left, toks))
        },
        TokenType::Op => {
            let head = toks.pop_front().unwrap();
            assert(tokens_view(toks@) =~= rest_of(before));
            let power = match binding_power(env, &head) {
                Ok(power) => power,
                Err(e) => {
                    return Err(e);
                },
            };
            let assoc = match binding_dir(env, &head) {
                Ok(assoc) => assoc,
                Err(e) => {
                    return Err(e);
                },
            };
            let min_power: i64 = match assoc {
                Direction::Left => power as i64,
                Direction::Right => power as i64 - 1,
            };
            match expr(env, toks, min_power) {
                Ok((right, after)) => match operation(head, left, right) {
                    Ok(node) => Ok((node, after)),
                    Err(e) => Err(e),
                },
                Err(e) => Err(e),
            }
        },
        TokenType::OpenBracket => {
            let head = toks.pop_front().unwrap();
            assert(tokens_view(toks@) =~= rest_of(before));
            let info = head.get_info();
            if toks.len() > 0 && toks[0].tok_type == TokenType::CloseBracket && closes(
                &head.value,
                &toks[0].value,
            ) {
                let ghost inside = tokens_view(toks@);
                toks.pop_front();
                assert(tokens_view(toks@) =~= rest_of(inside));
                let args: Vec<Let> = Vec::new();
                assert(lets_view(args@) =~= Seq::<LetView>::empty());
                return Ok((Node::ApplyNode(Apply { inner: Box::new(left), args, info }), toks));
            }
            match expr(env, toks, 0) {
                Ok((args, after)) => {
                    let ghost closing = tokens_view(after@);
                    let mut after = after;
                    match check_closed(&head, &after) {
                        Some(e) => Err(e),
                        None => {
                            after.pop_front();
                            assert(tokens_view(after@) =~= rest_of(closing));
                            Ok(
                                (
                                    Node::ApplyNode(
                                        Apply { inner: Box::new(left), args: get_defs(args), info },
                                    ),
                                    after,
                                ),
                            )
                        },
                    }
                },
                Err(e) => Err(e),
            }
        },
        TokenType::Unknown | TokenType::Whitespace => {
            let info = toks[0].get_info();
            Err(TError::ParseError(ParseFault::InvalidToken, info))
        },
    }
}

/// Reads the longest expression at the start of `toks` whose operators all
/// bind tighter than `min_power`.
pub fn expr(env: &ExternTable, toks: VecDeque<Token>, min_power: i64) -> (r: Result<
    (Node, VecDeque<Token>),
    TError,
>)
    ensures
        parsed_view(r) == spec_expr(env.operators(), tokens_view(toks@), min_power as int),
        r matches Ok((_, after)) ==> tail_weight(tokens_view(after@)) <= start_weight(
            tokens_view(toks@),
        ),
    decreases start_weight(tokens_view(toks@)), 3int,
{
    let ghost ops = env.operators();
    let ghost start = tokens_view(toks@);
    let (first, after) = match nud(env, toks) {
        Ok(read) => read,
        Err(e) => {
            return Err(e);
        },
    };
    let mut left = first;
    let mut rest = after;
    loop
        invariant
            ops == env.operators(),
            start == tokens_view(toks@),
            tail_weight(tokens_view(rest@)) <= start_weight(start),
            spec_expr(ops, start, min_power as int) == spec_expr_tail(
                ops,
                tokens_view(rest@),
                left@,
                min_power as int,
            ),
        decreases tail_weight(tokens_view(rest@)),
    {
        if rest.len() == 0 {
            return Ok((left, rest));
        }
        let power = match binding_power(env, &rest[0]) {
            Ok(power) => power,
            Err(e) => {
                return Err(e);
            },
        };
        if min_power >= power as i64 {
            return Ok((left, rest));
        }
        let saved = clone_node(&left);
        match led(env, rest, left) {
            Err(e) => {
                return Err(e);
            },
            Ok((node, after)) => {
                if let Node::Error(_) = node {
                    return Ok((saved, after));
                }
                left = node;
                rest = after;
            },
        }
    }
}

/// Parses a whole input: the expression that `toks` begin with, which
/// nothing may follow.
pub fn parse(env: &ExternTable, toks: VecDeque<Token>) -> (r: Result<Node, TError>)
    ensures
        match r {
            Ok(root) => spec_parse(env.operators(), tokens_view(toks@)) == Ok::<
                NodeView,
                TErrorView,
            >(root@),
            Err(e) => spec_parse(env.operators(), tokens_view(toks@)) == Err::<
                NodeView,
                TErrorView,
            >(e@),
        },
{
    match expr(env, toks, 0) {
        Err(e) => Err(e),
        Ok((root, left_over)) => {
            if left_over.len() > 0 {
                let info = left_over[0].get_info();
                let mut rest: Vec<Token> = Vec::new();
                let mut i: usize = 0;
                while i < left_over.len()
                    invariant
                        i <= left_over.len(),
                        rest.len() == i,
                        forall|j: int| 0 <= j < i ==> rest[j]@ == left_over@[j]@,
                    decreases left_over.len() - i,
                {
                    rest.push(left_over[i].clone());
                    i += 1;
                }
                assert(tokens_view(rest@) =~= tokens_view(left_over@));
                Err(TError::ParseError(ParseFault::LeftOverTokens(rest), info))
            } else {
                Ok(root)
            }
        },
    }
}

/// Parses the text `text` from the file `filename`.
pub fn parse_string(env: &ExternTable, filename: &str, text: &str) -> (r: Result<Node, TError>)
    requires
        text@.len() < i32::MAX - 1,
    ensures
        match r {
            Ok(root) => spec_parse(env.operators(), crate::tokens::spec_lex(filename@, text@))
                == Ok::<NodeView, TErrorView>(root@),
            Err(e) => spec_parse(env.operators(), crate::tokens::spec_lex(filename@, text@))
                == Err::<NodeView, TErrorView>(e@),
        },
{
    parse(env, crate::tokens::lex_string(filename, text))
}

// ---------------------------------------------------------------------
// The bounds of the parser
// ---------------------------------------------------------------------
/// What follows an expression that `spec_nud` read weighs no more than
/// what it was read from.
pub proof fn lemma_nud_bounded(ops: Operators, toks: Seq<TokenView>)
    ensures
        spec_nud(ops, toks) matches Ok((_, after)) ==> tail_weight(after) <= start_weight(toks),
    decreases start_weight(toks), 2int,
{
    if toks.len() > 0 {
        let head = toks[0];
        let rest = rest_of(toks);
        match head.tok_type {
            TokenType::Op => match spec_binding_power(ops, head) {
                Ok(power) => {
                    lemma_expr_bounded(ops, rest, power);
                },
                Err(_) => {},
            },
            TokenType::OpenBracket => {
                lemma_expr_bounded(ops, rest, 0);
            },
            _ => {},
        }
    }
}

/// What follows an extension that `spec_led` made weighs less than what
/// it was made from, unless the extension is an error node: then it
/// weighs the same.
pub proof fn lemma_led_bounded(ops: Operators, toks: Seq<TokenView>, left: NodeView)
    ensures
        spec_led(ops, toks, left) matches Ok((node, after)) ==> tail_weight(after) <= tail_weight(
            toks,
        ) && (node is Error || tail_weight(after) < tail_weight(toks)),
    decreases tail_weight(toks), 0int,
{
    if toks.len() > 0 {
        let head = toks[0];
        let rest = rest_of(toks);
        match head.tok_type {
            TokenType::NumLit | TokenType::StringLit | TokenType::Sym => {
                let spliced = seq![comma_at(head.pos)] + toks;
                assert(spliced[0] == comma_at(head.pos));
                assert(spliced.len() == toks.len() + 1);
            },
            TokenType::Op => match spec_binding_power(ops, head) {
                Ok(power) => match spec_binding_dir(ops, head) {
                    Ok(assoc) => {
                        lemma_expr_bounded(
                            ops,
                            rest,
                            if assoc == Direction::Right {
                                power - 1
                            } else {
                                power
                            },
                        );
                    },
                    Err(_) => {},
                },
                Err(_) => {},
            },
            TokenType::OpenBracket => {
                lemma_expr_bounded(ops, rest, 0);
            },
            _ => {},
        }
    }
}

/// What follows an expression that `spec_expr_tail` extended weighs no
/// more than what it was extended from, and the bound that the function
/// names always holds.
pub proof fn lemma_expr_tail_bounded(
    ops: Operators,
    toks: Seq<TokenView>,
    left: NodeView,
    min_power: int,
)
    ensures
        spec_expr_tail(ops, toks, left, min_power) matches Ok((_, after)) ==> tail_weight(after)
            <= tail_weight(toks),
        spec_expr_tail(ops, toks, left, min_power) == expr_tail_unfolded(
            ops,
            toks,
            left,
            min_power,
        ),
    decreases tail_weight(toks), 1int,
{
    if toks.len() > 0 {
        match spec_binding_power(ops, toks[0]) {
            Ok(power) => {
                if min_power < power {
                    lemma_led_bounded(ops, toks, left);
                    match spec_led(ops, toks, left) {
                        Ok((node, after)) => {
                            if !(node is Error) {
                                lemma_expr_tail_bounded(ops, after, node, min_power);
                            }
                        },
                        Err(_) => {},
                    }
                }
            },
            Err(_) => {},
        }
    }
}

/// What follows an expression that `spec_expr` read weighs no more than
/// what it was read from, and the bound that the function names always
/// holds.
pub proof fn lemma_expr_bounded(ops: Operators, toks: Seq<TokenView>, min_power: int)
    ensures
        spec_expr(ops, toks, min_power) matches Ok((_, after)) ==> tail_weight(after)
            <= start_weight(toks),
        spec_expr(ops, toks, min_power) == expr_unfolded(ops, toks, min_power),
    decreases start_weight(toks), 3int,
{
    lemma_nud_bounded(ops, toks);
    match spec_nud(ops, toks) {
        Ok((left, after)) => {
            lemma_expr_tail_bounded(ops, after, left, min_power);
        },
        Err(_) => {},
    }
}

/// What `spec_expr` is, without the bound that its recursion names: an
/// expression that has nothing to its left, extended by what follows it.
pub open spec fn expr_unfolded(ops: Operators, toks: Seq<TokenView>, min_power: int) -> Parsed {
    match spec_nud(ops, toks) {
        Err(e) => Err(e),
        Ok((left, after)) => spec_expr_tail(ops, after, left, min_power),
    }
}

/// What `spec_expr_tail` is, without the bound that its recursion names.
pub open spec fn expr_tail_unfolded(
    ops: Operators,
    toks: Seq<TokenView>,
    left: NodeView,
    min_power: int,
) -> Parsed {
    if toks.len() == 0 {
        Ok((left, toks))
    } else {
        match spec_binding_power(ops, toks[0]) {
            Err(e) => Err(e),
            Ok(power) => if min_power >= power {
                Ok((left, toks))
            } else {
                match spec_led(ops, toks, left) {
                    Err(e) => Err(e),
                    Ok((node, after)) => if node is Error {
                        Ok((left, after))
                    } else {
                        spec_expr_tail(ops, after, node, min_power)
                    },
                }
            },
        }
    }
}

} // verus!
