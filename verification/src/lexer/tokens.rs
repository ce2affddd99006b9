use vstd::prelude::*;

verus! {

/// The tokens that the lexer produces.
#[derive(Debug, PartialEq)]
pub enum Tokens {
    /// A bare word: a name, a keyword or a number literal.
    Statement(String),
    /// The contents of a quoted string literal.
    String(String),
    // punctuators
    OpenParenthesis,
    CloseParenthesis,
    OpenSquaredBrackets,
    CloseSquaredBrackets,
    OpenCurlyBrackets,
    CloseCurlyBrackets,
    Comma,
    Equals,
    // arithmetic operations
    Add,
    Subtract,
    Multiply,
    Divide,
    Mod,
    AddTo,
    SubtractTo,
    DivideTo,
    MultiplyTo,
    ModTo,
    SemmiColon,
    Increment,
    Decrement,
    // comparisons
    EqualsTo,
    IsDifferent,
    SmallerThan,
    SmallerOrEqual,
    BiggerThan,
    BiggerThanOrEqual,
    // boolean operators
    AndBool,
    OrBool,
    NotBool,
    // bitwise operators
    AndBitwise,
    OrBitwise,
    Unkown,
}

/// What the lexer reports when it refuses a program.
#[derive(Debug, PartialEq, Eq)]
pub enum LexerError {
    /// `&` or `|` followed by another character than itself.
    UnexpectedOperator(char),
    /// `&` or `|` as the last byte of the program.
    OutOfBounds,
    Unreachable,
}

/// A token as a mathematical value: the text of a word or of a string
/// literal as a sequence of characters; every other token as itself.
pub enum TokenView {
    Statement(Seq<char>),
    Text(Seq<char>),
    Symbol(Tokens),
}

impl View for Tokens {
    type V = TokenView;

    open spec fn view(&self) -> TokenView {
        match self {
            Tokens::Statement(s) => TokenView::Statement(s@),
            Tokens::String(s) => TokenView::Text(s@),
            _ => TokenView::Symbol(*self),
        }
    }
}

/// The view of every token of a sequence.
pub open spec fn tokens_view(v: Seq<Tokens>) -> Seq<TokenView> {
    v.map_values(|t: Tokens| t@)
}

pub proof fn lemma_tokens_view_push(v: Seq<Tokens>, t: Tokens)
    ensures
        tokens_view(v.push(t)) == tokens_view(v).push(t@),
{
    assert(tokens_view(v.push(t)) =~= tokens_view(v).push(t@));
}

/// The characters that stand for a token of their own.
pub open spec fn is_single_token_char(c: char) -> bool {
    c == '(' || c == ')' || c == '{' || c == '}' || c == ',' || c == '[' || c == ']'
}

/// The token of a single punctuation character.
pub open spec fn single_token(c: char) -> Tokens
    recommends
        is_single_token_char(c),
{
    if c == '(' {
        Tokens::OpenParenthesis
    } else if c == ')' {
        Tokens::CloseParenthesis
    } else if c == '{' {
        Tokens::OpenCurlyBrackets
    } else if c == '}' {
        Tokens::CloseCurlyBrackets
    } else if c == ',' {
        Tokens::Comma
    } else if c == '[' {
        Tokens::OpenSquaredBrackets
    } else {
        Tokens::CloseSquaredBrackets
    }
}

/// The token of a punctuation character; no other character is accepted.
pub fn get_single_token(cell: char) -> (r: Tokens)
    requires
        is_single_token_char(cell),
    ensures
        r == single_token(cell),
{
    match cell {
        '(' => Tokens::OpenParenthesis,
        ')' => Tokens::CloseParenthesis,
        '{' => Tokens::OpenCurlyBrackets,
        '}' => Tokens::CloseCurlyBrackets,
        ',' => Tokens::Comma,
        '[' => Tokens::OpenSquaredBrackets,
        // by the precondition only ']' is left
        _ => Tokens::CloseSquaredBrackets,
    }
}

} // verus!
