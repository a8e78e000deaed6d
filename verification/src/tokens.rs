//! Lexical tokens.

use crate::ast::{no_info, Info, InfoView};
use crate::location::{Loc, LocView};
use vstd::prelude::*;

verus! {

/// The class of a token, and of a character while a token is read.
#[derive(Clone, Copy, Debug, PartialEq, Eq, Structural)]
pub enum TokenType {
    Op,
    OpenBracket,
    CloseBracket,
    NumLit,
    StringLit,
    Sym,
    Unknown,
    Whitespace,
}

/// A token: its class, its text and the place where it starts.
#[derive(Debug, PartialEq, Eq)]
pub struct Token {
    pub tok_type: TokenType,
    pub value: String,
    pub pos: Loc,
}

/// The mathematical value of a [`Token`].
pub ghost struct TokenView {
    pub tok_type: TokenType,
    pub value: Seq<char>,
    pub pos: LocView,
}

impl View for Token {
    type V = TokenView;

    open spec fn view(&self) -> TokenView {
        TokenView { tok_type: self.tok_type, value: self.value@, pos: self.pos@ }
    }
}

/// The values of a sequence of tokens.
pub open spec fn tokens_view(tokens: Seq<Token>) -> Seq<TokenView> {
    Seq::new(tokens.len(), |i: int| tokens[i]@)
}

/// The metadata of a node that was read at `pos`.
pub open spec fn info_at(pos: LocView) -> InfoView {
    InfoView { loc: Some(pos), ..no_info() }
}

impl Clone for Token {
    fn clone(&self) -> (copy: Token)
        ensures
            copy@ == self@,
    {
        Token { tok_type: self.tok_type, value: self.value.clone(), pos: self.pos.clone() }
    }
}

impl Loc {
    /// The metadata of a node read at this place.
    pub fn get_info(self) -> (info: Info)
        ensures
            info@ == info_at(self@),
    {
        Info { loc: Some(self), ty: None, defined_at: None, requires: None, is_function: false }
    }
}

impl Token {
    /// The metadata of a node made from this token.
    pub fn get_info(&self) -> (info: Info)
        ensures
            info@ == info_at(self@.pos),
    {
        self.pos.clone().get_info()
    }
}

// ---------------------------------------------------------------------
// The lexer
// ---------------------------------------------------------------------
/// Whether a character separates tokens.
pub open spec fn is_space(c: char) -> bool {
    c == ' ' || c == '\n' || c == '\r' || c == '\t'
}

/// Whether a character is part of an operator.
pub open spec fn is_operator(c: char) -> bool {
    c == '~' || c == '!' || c == '@' || c == '#' || c == '$' || c == '%' || c == '^' || c == '&'
        || c == '*' || c == '-' || c == '+' || c == '=' || c == '<' || c == '>' || c == '|' || c
        == '\\' || c == '/' || c == '?' || c == '.' || c == ',' || c == ':' || c == ';'
}

/// Whether a character opens a bracket.
pub open spec fn is_open_bracket(c: char) -> bool {
    c == '(' || c == '[' || c == '{'
}

/// Whether a character closes a bracket.
pub open spec fn is_close_bracket(c: char) -> bool {
    c == ')' || c == ']' || c == '}'
}

/// Whether a character is a decimal digit.
pub open spec fn is_number(c: char) -> bool {
    '0' <= c && c <= '9'
}

/// Whether a character begins and ends a string.
pub open spec fn is_quote(c: char) -> bool {
    c == '\'' || c == '"' || c == '`'
}

/// The class of a character.
pub open spec fn classify(c: char) -> TokenType {
    if is_space(c) {
        TokenType::Whitespace
    } else if is_operator(c) {
        TokenType::Op
    } else if is_open_bracket(c) {
        TokenType::OpenBracket
    } else if is_close_bracket(c) {
        TokenType::CloseBracket
    } else if is_number(c) {
        TokenType::NumLit
    } else if is_quote(c) {
        TokenType::StringLit
    } else {
        TokenType::Sym
    }
}

/// The class of a character; see [`classify`].
pub fn classify_char(c: char) -> (class: TokenType)
    ensures
        class == classify(c),
{
    if c == ' ' || c == '\n' || c == '\r' || c == '\t' {
        TokenType::Whitespace
    } else if c == '~' || c == '!' || c == '@' || c == '#' || c == '$' || c == '%' || c == '^'
        || c == '&' || c == '*' || c == '-' || c == '+' || c == '=' || c == '<' || c == '>' || c
        == '|' || c == '\\' || c == '/' || c == '?' || c == '.' || c == ',' || c == ':' || c
        == ';' {
        TokenType::Op
    } else if c == '(' || c == '[' || c == '{' {
        TokenType::OpenBracket
    } else if c == ')' || c == ']' || c == '}' {
        TokenType::CloseBracket
    } else if '0' <= c && c <= '9' {
        TokenType::NumLit
    } else if c == '\'' || c == '"' || c == '`' {
        TokenType::StringLit
    } else {
        TokenType::Sym
    }
}

/// What kind of run a token of the class `class` is read as: characters
/// go on a run while `continues` holds of them.
pub open spec fn continues(class: TokenType, quote: char, c: char) -> bool {
    match class {
        TokenType::Whitespace => is_space(c),
        TokenType::Op => classify(c) == TokenType::Op,
        TokenType::StringLit => c != quote,
        _ => classify(c) == TokenType::NumLit || classify(c) == TokenType::Sym,
    }
}

/// The end of the run of the class `class` that begins at `from`.
pub open spec fn run_end(chars: Seq<char>, from: int, class: TokenType, quote: char) -> int
    decreases chars.len() - from,
{
    if 0 <= from < chars.len() && continues(class, quote, chars[from]) {
        run_end(chars, from + 1, class, quote)
    } else {
        from
    }
}

/// A run ends inside the text, every character of it belongs to its
/// class, and the character behind it does not.
pub proof fn lemma_run_end(chars: Seq<char>, from: int, class: TokenType, quote: char)
    requires
        0 <= from <= chars.len(),
    ensures
        from <= run_end(chars, from, class, quote) <= chars.len(),
        forall|i: int|
            from <= i < run_end(chars, from, class, quote) ==> continues(
                class,
                quote,
                #[trigger] chars[i],
            ),
        run_end(chars, from, class, quote) < chars.len() ==> !continues(
            class,
            quote,
            chars[run_end(chars, from, class, quote)],
        ),
    decreases chars.len() - from,
{
    if from < chars.len() && continues(class, quote, chars[from]) {
        lemma_run_end(chars, from + 1, class, quote);
    }
}

/// Whether the characters from `from` up to `to` are all digits.
pub open spec fn all_numbers(chars: Seq<char>, from: int, to: int) -> bool {
    forall|i: int| from <= i < to ==> is_number(#[trigger] chars[i])
}

/// A token that begins at `start`: its class, where its text begins and
/// ends, and where the next token is to be looked for. A quote begins a
/// string, which is the text up to the same quote; a bracket stands
/// alone; operator characters run together; digits and other characters
/// run together into a number if they are all digits, and into a name if
/// not. There is no token in a string that is not closed.
pub open spec fn token_at(chars: Seq<char>, start: int) -> Option<(TokenType, int, int, int)> {
    let c = chars[start];
    match classify(c) {
        TokenType::StringLit => {
            let close = run_end(chars, start + 1, TokenType::StringLit, c);
            if close < chars.len() {
                Some((TokenType::StringLit, start + 1, close, close + 1))
            } else {
                None
            }
        },
        TokenType::OpenBracket => Some((TokenType::OpenBracket, start, start + 1, start + 1)),
        TokenType::CloseBracket => Some((TokenType::CloseBracket, start, start + 1, start + 1)),
        TokenType::Op => {
            let end = run_end(chars, start, TokenType::Op, c);
            Some((TokenType::Op, start, end, end))
        },
        TokenType::Whitespace => None,
        _ => {
            let end = run_end(chars, start, TokenType::Sym, c);
            Some(
                (
                    if all_numbers(chars, start, end) {
                        TokenType::NumLit
                    } else {
                        TokenType::Sym
                    },
                    start,
                    end,
                    end,
                ),
            )
        },
    }
}

/// The tokens of the text `chars` from `from` on. Whitespace separates
/// tokens and belongs to none; the tokens end where the text ends, or
/// before a string that is not closed.
pub open spec fn spec_lex_from(file: Option<Seq<char>>, chars: Seq<char>, from: int) -> Seq<
    TokenView,
>
    decreases chars.len() - from,
{
    let start = run_end(chars, from, TokenType::Whitespace, ' ');
    if from < 0 || start >= chars.len() {
        Seq::empty()
    } else {
        match token_at(chars, start) {
            None => Seq::empty(),
            Some((class, begin, end, next)) => if from < next <= chars.len() {
                seq![
                    TokenView {
                        tok_type: class,
                        value: chars.subrange(begin, end),
                        pos: crate::location::loc_at(file, chars, start),
                    },
                ] + spec_lex_from(file, chars, next)
            } else {
                Seq::empty()
            },
        }
    }
}

/// The tokens of a text from the file `file`.
pub open spec fn spec_lex(file: Seq<char>, text: Seq<char>) -> Seq<TokenView> {
    spec_lex_from(Some(file), text, 0)
}

/// The characters of a text.
pub fn chars_of(text: &str) -> (chars: Vec<char>)
    ensures
        chars@ == text@,
{
    let len = text.unicode_len();
    let mut chars: Vec<char> = Vec::new();
    let mut i: usize = 0;
    while i < len
        invariant
            len == text@.len(),
            i <= len,
            chars@ == text@.take(i as int),
        decreases len - i,
    {
        chars.push(text.get_char(i));
        assert(chars@ =~= text@.take(i as int + 1));
        i += 1;
    }
    assert(text@.take(len as int) =~= text@);
    chars
}

/// Moves `pos` and `index` past the run of the class `class` that
/// `index` stands in.
fn skip_run(
    pos: &mut Loc,
    chars: &Vec<char>,
    index: usize,
    class: TokenType,
    quote: char,
) -> (end: usize)
    requires
        index <= chars.len(),
        chars.len() < i32::MAX - 1,
        old(pos)@ == crate::location::loc_at(old(pos)@.filename, chars@, index as int),
        crate::location::on_boundary(chars@, index as int),
        continues(class, quote, '\r') ==> continues(class, quote, '\n'),
    ensures
        end == run_end(chars@, index as int, class, quote),
        index <= end <= chars.len(),
        final(pos)@ == crate::location::loc_at(old(pos)@.filename, chars@, end as int),
        crate::location::on_boundary(chars@, end as int),
{
    let ghost file = pos@.filename;
    let mut i = index;
    loop
        invariant
            index <= i <= chars.len(),
            chars.len() < i32::MAX - 1,
            continues(class, quote, '\r') ==> continues(class, quote, '\n'),
            pos@ == crate::location::loc_at(file, chars@, i as int),
            crate::location::on_boundary(chars@, i as int),
            file == old(pos)@.filename,
            run_end(chars@, index as int, class, quote) == run_end(
                chars@,
                i as int,
                class,
                quote,
            ),
        decreases chars.len() - i,
    {
        if i >= chars.len() {
            return i;
        }
        let c = chars[i];
        let go_on = match class {
            TokenType::Whitespace => c == ' ' || c == '\n' || c == '\r' || c == '\t',
            TokenType::Op => classify_char(c) == TokenType::Op,
            TokenType::StringLit => c != quote,
            _ => {
                let kind = classify_char(c);
                kind == TokenType::NumLit || kind == TokenType::Sym
            },
        };
        if !go_on {
            return i;
        }
        proof {
            crate::location::lemma_loc_bounds(file, chars@, i as int);
            crate::location::lemma_next_loc(file, chars@, i as int);
        }
        let after = pos.next(chars, i);
        proof {
            assert(run_end(chars@, i as int, class, quote) == run_end(
                chars@,
                i as int + 1,
                class,
                quote,
            ));
            if after == i + 2 {
                // A line feed follows the carriage return, and belongs to
                // the run as the carriage return does.
                assert(chars@[i as int] == '\r' && chars@[i as int + 1] == '\n');
                assert(run_end(chars@, i as int + 1, class, quote) == run_end(
                    chars@,
                    i as int + 2,
                    class,
                    quote,
                ));
            }
        }
        i = after;
    }
}

/// Reads the tokens of the text `contents` from the file `filename`.
pub fn lex_string(filename: &str, contents: &str) -> (toks: std::collections::VecDeque<Token>)
    requires
        contents@.len() < i32::MAX - 1,
    ensures
        tokens_view(toks@) == spec_lex(filename@, contents@),
{
    let chars = chars_of(contents);
    let ghost file = Some(filename@);
    let mut toks: std::collections::VecDeque<Token> = std::collections::VecDeque::new();
    let mut pos = Loc { filename: Some(String::from_str(filename)), line: 1, col: 1 };
    let mut i: usize = 0;
    assert(tokens_view(toks@) =~= Seq::<TokenView>::empty());
    loop
        invariant
            i <= chars.len(),
            chars@ == contents@,
            chars.len() < i32::MAX - 1,
            file == Some(filename@),
            pos@ == crate::location::loc_at(file, chars@, i as int),
            crate::location::on_boundary(chars@, i as int),
            spec_lex(filename@, contents@) == tokens_view(toks@) + spec_lex_from(
                file,
                chars@,
                i as int,
            ),
        decreases chars.len() - i,
    {
        let ghost done = tokens_view(toks@);
        proof {
            crate::location::lemma_loc_bounds(file, chars@, i as int);
        }
        let start = skip_run(&mut pos, &chars, i, TokenType::Whitespace, ' ');
        if start >= chars.len() {
            assert(done + Seq::<TokenView>::empty() =~= done);
            return toks;
        }
        let at = pos.clone();
        let c = chars[start];
        let class = classify_char(c);
        proof {
            lemma_run_end(chars@, i as int, TokenType::Whitespace, ' ');
            crate::location::lemma_loc_bounds(file, chars@, start as int);
            crate::location::lemma_next_loc(file, chars@, start as int);
        }
        assert(class != TokenType::Whitespace);
        let (tok_type, begin, end, next) = match class {
            TokenType::StringLit => {
                let inside = pos.next(&chars, start);
                proof {
                    crate::location::lemma_loc_bounds(file, chars@, inside as int);
                }
                let close = skip_run(&mut pos, &chars, inside, TokenType::StringLit, c);
                if close >= chars.len() {
                    assert(done + Seq::<TokenView>::empty() =~= done);
                    return toks;
                }
                proof {
                    lemma_run_end(chars@, inside as int, TokenType::StringLit, c);
                    crate::location::lemma_loc_bounds(file, chars@, close as int);
                    crate::location::lemma_next_loc(file, chars@, close as int);
                }
                let after = pos.next(&chars, close);
                (TokenType::StringLit, inside, close, after)
            },
            TokenType::OpenBracket | TokenType::CloseBracket => {
                let after = pos.next(&chars, start);
                (class, start, after, after)
            },
            TokenType::Op => {
                let end = skip_run(&mut pos, &chars, start, TokenType::Op, c);
                proof {
                    lemma_run_end(chars@, start as int, TokenType::Op, c);
                }
                (TokenType::Op, start, end, end)
            },
            _ => {
                let end = skip_run(&mut pos, &chars, start, TokenType::Sym, c);
                proof {
                    lemma_run_end(chars@, start as int, TokenType::Sym, c);
                }
                let mut numeric = true;
                let mut k = start;
                while k < end
                    invariant
                        start <= k <= end <= chars.len(),
                        numeric == all_numbers(chars@, start as int, k as int),
                    decreases end - k,
                {
                    if !('0' <= chars[k] && chars[k] <= '9') {
                        numeric = false;
                    }
                    proof {
                        if !is_number(chars[k as int]) {
                            assert(!all_numbers(chars@, start as int, k as int + 1));
                        }
                    }
                    k += 1;
                }
                (
                    if numeric {
                        TokenType::NumLit
                    } else {
                        TokenType::Sym
                    },
                    start,
                    end,
                    end,
                )
            },
        };
        assert(token_at(chars@, start as int) == Some(
            (tok_type, begin as int, end as int, next as int),
        ));
        assert(i < next <= chars.len());
        let value = String::from_str(contents.substring_char(begin, end));
        toks.push_back(Token { tok_type, value, pos: at });
        proof {
            let token = TokenView {
                tok_type,
                value: chars@.subrange(begin as int, end as int),
                pos: crate::location::loc_at(file, chars@, start as int),
            };
            assert(tokens_view(toks@) =~= done.push(token));
            assert(done.push(token) + spec_lex_from(file, chars@, next as int) =~= done + (
            seq![token] + spec_lex_from(file, chars@, next as int)));
        }
        i = next;
    }
}

/// The name of the file that holds a module: the segments of its path
/// with `/` between them, and `.tk` behind them.
pub open spec fn module_file(module: crate::ast::PathView) -> Seq<char> {
    crate::ast::joined_path(module, "/"@) + ".tk"@
}

/// Reads the tokens of the module at `module`, whose text is `contents`.
pub fn lex(module: &Vec<crate::ast::Symbol>, contents: &str) -> (toks: std::collections::VecDeque<
    Token,
>)
    requires
        contents@.len() < i32::MAX - 1,
    ensures
        tokens_view(toks@) == spec_lex(module_file(crate::ast::path_view(module@)), contents@),
{
    let mut filename = crate::ast::join_path(module, "/");
    filename.append(".tk");
    lex_string(filename.as_str(), contents)
}

} // verus!
