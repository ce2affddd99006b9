pub mod tokens;

use vstd::prelude::*;
use vstd::utf8::{char_u32_cast, encode_scalar, encode_utf8};
use crate::text::{lemma_encode_scalar_bytes, lemma_encode_utf8_concat};
use crate::lexer::tokens::{
    LexerError, TokenView, Tokens, get_single_token, is_single_token_char, lemma_tokens_view_push,
    single_token, tokens_view,
};

verus! {

// ---------------------------------------------------------------------------
// The lexer as a state machine over the bytes of the program
// ---------------------------------------------------------------------------

/// Everything the lexer knows between two bytes of the program.
pub struct LexState {
    /// the tokens produced so far
    pub out: Seq<TokenView>,
    /// the word or string literal being read
    pub part: Seq<char>,
    /// the position of the byte being read
    pub index: int,
    pub inside_string: bool,
    pub line_comment: bool,
    pub multiline_comment: bool,
    /// the previous byte was a backslash that has not been used yet
    pub backslash: bool,
}

/// How lexing a whole program ends.
pub enum LexOutcome {
    /// every byte was read: the tokens
    Done(Seq<TokenView>),
    /// the program was refused
    Failed(LexerError),
    /// reading the byte after the last one was attempted: the program's last
    /// byte is an operator byte that may start a two-byte operator
    Overrun,
}

pub open spec fn initial_state() -> LexState {
    LexState {
        out: Seq::empty(),
        part: Seq::empty(),
        index: 0,
        inside_string: false,
        line_comment: false,
        multiline_comment: false,
        backslash: false,
    }
}

pub open spec fn in_comment(st: LexState) -> bool {
    st.multiline_comment || st.line_comment
}

pub open spec fn has_next(s: Seq<u8>, st: LexState) -> bool {
    st.index + 1 < s.len()
}

pub open spec fn next_char(s: Seq<u8>, st: LexState) -> char {
    s[st.index + 1] as char
}

/// The pending word, if any, becomes a `Statement` token.
pub open spec fn flushed(st: LexState) -> LexState {
    if st.part.len() > 0 {
        LexState { out: st.out.push(TokenView::Statement(st.part)), part: Seq::empty(), ..st }
    } else {
        st
    }
}

pub open spec fn pushed(st: LexState, c: char) -> LexState {
    LexState { part: st.part.push(c), ..st }
}

pub open spec fn emitted(st: LexState, t: Tokens) -> LexState {
    LexState { out: st.out.push(t@), ..st }
}

pub open spec fn skipped(st: LexState) -> LexState {
    LexState { index: st.index + 1, ..st }
}

pub open spec fn no_backslash(st: LexState) -> LexState {
    LexState { backslash: false, ..st }
}

/// `/`: a comment opener, `/=`, or `/`.
pub open spec fn slash_step(s: Seq<u8>, st: LexState) -> LexState {
    if st.inside_string {
        pushed(st, '/')
    } else if !has_next(s, st) {
        st
    } else {
        let c = next_char(s, st);
        let st1 = if c == '/' {
            skipped(LexState { line_comment: true, ..st })
        } else if c == '*' {
            skipped(LexState { multiline_comment: true, ..st })
        } else if c == '=' {
            skipped(emitted(st, Tokens::DivideTo))
        } else {
            emitted(st, Tokens::Divide)
        };
        flushed(st1)
    }
}

/// `"`: opens or closes a string literal, or ends a pending word.
pub open spec fn quotes_step(st: LexState) -> LexState {
    let st1 = if in_comment(st) {
        st
    } else if !st.inside_string && st.part.len() > 0 {
        flushed(st)
    } else if st.inside_string && !st.backslash {
        LexState {
            inside_string: false,
            out: st.out.push(TokenView::Text(st.part)),
            part: Seq::empty(),
            ..st
        }
    } else if st.inside_string {
        pushed(st, '"')
    } else {
        LexState { inside_string: true, ..st }
    };
    no_backslash(st1)
}

/// A space, a tab or a newline.
pub open spec fn space_step(st: LexState, c: char) -> LexState {
    let st0 = if c == '\n' {
        LexState { line_comment: false, ..st }
    } else {
        st
    };
    if in_comment(st) {
        st0
    } else if st.inside_string {
        pushed(st0, c)
    } else {
        flushed(st0)
    }
}

/// An operator whose second byte, if it is `=`, makes another operator.
/// `None` when there is no next byte to look at.
pub open spec fn two_cases_step(s: Seq<u8>, st: LexState, action: Tokens, action_to: Tokens) -> Option<LexState> {
    if !has_next(s, st) {
        None
    } else if next_char(s, st) == '=' {
        Some(skipped(emitted(st, action_to)))
    } else {
        Some(emitted(st, action))
    }
}

/// `+` or `-`: doubled, followed by `=`, or alone.
pub open spec fn sign_step(s: Seq<u8>, st: LexState, c: char, single: Tokens, double: Tokens, with_equals: Tokens) -> Option<LexState> {
    if !has_next(s, st) {
        None
    } else if next_char(s, st) == c {
        Some(skipped(emitted(st, double)))
    } else if next_char(s, st) == '=' {
        Some(skipped(emitted(st, with_equals)))
    } else {
        Some(emitted(st, single))
    }
}

/// `*`, `+`, `-` or `%`; `*` also closes a multi-line comment.
pub open spec fn arithmetic_step(s: Seq<u8>, st: LexState, c: char) -> Option<LexState> {
    if st.multiline_comment {
        if c != '*' {
            Some(st)
        } else if !has_next(s, st) {
            None
        } else if next_char(s, st) == '/' {
            Some(skipped(LexState { multiline_comment: false, ..st }))
        } else {
            Some(st)
        }
    } else if st.line_comment {
        Some(st)
    } else if st.inside_string {
        Some(pushed(st, c))
    } else {
        let st1 = flushed(st);
        if c == '+' {
            sign_step(s, st1, '+', Tokens::Add, Tokens::Increment, Tokens::AddTo)
        } else if c == '-' {
            sign_step(s, st1, '-', Tokens::Subtract, Tokens::Decrement, Tokens::SubtractTo)
        } else if c == '*' {
            two_cases_step(s, st1, Tokens::Multiply, Tokens::MultiplyTo)
        } else if c == '%' {
            two_cases_step(s, st1, Tokens::Mod, Tokens::ModTo)
        } else {
            Some(st1)
        }
    }
}

/// `n` or `t`: a letter, or after a backslash inside a string a newline or a tab.
pub open spec fn escape_step(st: LexState, c: char, escaped: char) -> LexState {
    let st1 = if in_comment(st) {
        st
    } else if st.inside_string && st.backslash {
        pushed(st, escaped)
    } else {
        pushed(st, c)
    };
    no_backslash(st1)
}

/// `\`: an escaped backslash inside a string, or the start of an escape.
pub open spec fn backslash_step(st: LexState) -> LexState {
    if st.inside_string && st.backslash {
        pushed(no_backslash(st), '\\')
    } else {
        LexState { backslash: true, ..st }
    }
}

/// A punctuation character that is a token of its own.
pub open spec fn single_step(st: LexState, c: char, t: Tokens) -> LexState {
    if in_comment(st) {
        st
    } else if st.inside_string {
        pushed(st, c)
    } else {
        emitted(flushed(st), t)
    }
}

/// `&&` or `||`; a single `&` or `|` is refused.
pub open spec fn boolean_step(s: Seq<u8>, st: LexState, c: char) -> Result<LexState, LexerError> {
    if in_comment(st) {
        Ok(st)
    } else if st.inside_string {
        Ok(pushed(st, c))
    } else {
        let st1 = flushed(st);
        if c == '&' || c == '|' {
            if !has_next(s, st1) {
                Err(LexerError::OutOfBounds)
            } else if next_char(s, st1) == c {
                Ok(skipped(emitted(st1, if c == '&' { Tokens::AndBool } else { Tokens::OrBool })))
            } else {
                Err(LexerError::UnexpectedOperator(next_char(s, st1)))
            }
        } else {
            Err(LexerError::Unreachable)
        }
    }
}

/// `=`, `>`, `<` or `!`, alone or followed by `=`.
pub open spec fn logical_step(s: Seq<u8>, st: LexState, c: char) -> Option<LexState> {
    if in_comment(st) {
        Some(st)
    } else if st.inside_string {
        Some(pushed(st, c))
    } else {
        let st1 = flushed(st);
        if c == '=' {
            two_cases_step(s, st1, Tokens::Equals, Tokens::EqualsTo)
        } else if c == '>' {
            two_cases_step(s, st1, Tokens::BiggerThan, Tokens::BiggerThanOrEqual)
        } else if c == '<' {
            two_cases_step(s, st1, Tokens::SmallerThan, Tokens::SmallerOrEqual)
        } else if c == '!' {
            two_cases_step(s, st1, Tokens::NotBool, Tokens::IsDifferent)
        } else {
            Some(st1)
        }
    }
}

/// `;` ends a statement, also inside a comment.
pub open spec fn semicolon_step(st: LexState) -> LexState {
    if st.inside_string {
        pushed(st, ';')
    } else {
        emitted(flushed(st), Tokens::SemmiColon)
    }
}

/// Any other byte joins the pending word or string literal.
pub open spec fn other_step(st: LexState, c: char) -> LexState {
    if !in_comment(st) {
        pushed(st, c)
    } else {
        st
    }
}

pub open spec fn is_arithmetic_char(c: char) -> bool {
    c == '*' || c == '+' || c == '-' || c == '%'
}

pub open spec fn is_logical_char(c: char) -> bool {
    c == '!' || c == '=' || c == '<' || c == '>'
}

pub open spec fn is_space_char(c: char) -> bool {
    c == ' ' || c == '\n' || c == '\t'
}

pub open spec fn is_punctuation_char(c: char) -> bool {
    c == ',' || c == '(' || c == ')' || c == '{' || c == '}'
}

/// Reading the byte at `st.index`, before the position moves on.
/// `None` when the lexer would read past the last byte.
pub open spec fn lex_step(s: Seq<u8>, st: LexState) -> Option<Result<LexState, LexerError>> {
    let c = s[st.index] as char;
    if c == '/' {
        Some(Ok(slash_step(s, no_backslash(st))))
    } else if c == '"' {
        Some(Ok(quotes_step(st)))
    } else if is_space_char(c) {
        Some(Ok(space_step(no_backslash(st), c)))
    } else if is_arithmetic_char(c) {
        match arithmetic_step(s, no_backslash(st), c) {
            Some(st1) => Some(Ok(st1)),
            None => None,
        }
    } else if c == 'n' || c == 't' {
        Some(Ok(escape_step(st, c, if c == 'n' { '\n' } else { '\t' })))
    } else if c == '\\' {
        Some(Ok(backslash_step(st)))
    } else if is_punctuation_char(c) {
        Some(Ok(single_step(no_backslash(st), c, single_token(c))))
    } else if c == '&' || c == '|' {
        Some(boolean_step(s, st, c))
    } else if is_logical_char(c) {
        match logical_step(s, st, c) {
            Some(st1) => Some(Ok(st1)),
            None => None,
        }
    } else if c == ';' {
        Some(Ok(semicolon_step(no_backslash(st))))
    } else {
        Some(Ok(other_step(no_backslash(st), c)))
    }
}

/// A step reads the current byte and at most the next one.
pub proof fn lemma_step_advances(s: Seq<u8>, st: LexState)
    requires
        0 <= st.index < s.len(),
    ensures
        lex_step(s, st) matches Some(Ok(st1)) ==> st.index <= st1.index < s.len(),
{
}

/// Lexing from a state to the end of the program.
pub open spec fn lex_from(s: Seq<u8>, st: LexState) -> LexOutcome
    decreases s.len() - st.index,
{
    if st.index < 0 || st.index >= s.len() {
        LexOutcome::Done(st.out)
    } else {
        match lex_step(s, st) {
            None => LexOutcome::Overrun,
            Some(Err(e)) => LexOutcome::Failed(e),
            Some(Ok(st1)) => {
                proof {
                    lemma_step_advances(s, st);
                }
                lex_from(s, skipped(st1))
            },
        }
    }
}

/// How lexing the program's bytes ends.
pub open spec fn spec_tokenize(s: Seq<u8>) -> LexOutcome {
    lex_from(s, initial_state())
}

/// How lexing a program ends; the lexer reads the UTF-8 bytes of the text.
pub open spec fn lex_outcome(program: &String) -> LexOutcome {
    spec_tokenize(encode_utf8(program@))
}


// ---------------------------------------------------------------------------
// The lexer
// ---------------------------------------------------------------------------

/// Appends a character to a string.
/// Calls `String::push`, which appends the character at the end of the string;
/// the contract says just that of the string's characters.
#[verifier::external_body]
fn push_char(s: &mut String, c: char)
    ensures
        final(s)@ == old(s)@.push(c),
{
    s.push(c);
}

/// The lexer's state while it walks over the bytes of a program.
struct Lexer {
    out: Vec<Tokens>,
    string_part: String,
    index: usize,
    inside_string: bool,
    line_comment: bool,
    multiline_comment: bool,
    backslash: bool,
}

impl View for Lexer {
    type V = LexState;

    closed spec fn view(&self) -> LexState {
        LexState {
            out: tokens_view(self.out@),
            part: self.string_part@,
            index: self.index as int,
            inside_string: self.inside_string,
            line_comment: self.line_comment,
            multiline_comment: self.multiline_comment,
            backslash: self.backslash,
        }
    }
}

impl Lexer {
    fn inside_comment(&self) -> (r: bool)
        ensures
            r == in_comment(self@),
    {
        self.multiline_comment || self.line_comment
    }

    fn push_part(&mut self, c: char)
        ensures
            final(self)@ == pushed(old(self)@, c),
    {
        push_char(&mut self.string_part, c);
    }

    fn emit(&mut self, t: Tokens)
        ensures
            final(self)@ == emitted(old(self)@, t),
    {
        proof {
            lemma_tokens_view_push(self.out@, t);
        }
        self.out.push(t);
    }

    fn flush(&mut self)
        ensures
            final(self)@ == flushed(old(self)@),
    {
        if !self.string_part.as_str().is_empty() {
            let t = Tokens::Statement(self.string_part.clone());
            proof {
                lemma_tokens_view_push(self.out@, t);
            }
            self.out.push(t);
            self.string_part = String::new();
        }
    }

    fn skip(&mut self)
        requires
            old(self).index < usize::MAX,
        ensures
            final(self)@ == skipped(old(self)@),
    {
        self.index = self.index + 1;
    }
}

/// `/` at the current position; only the bytes before `limit` are looked at.
fn slash_match(lx: &mut Lexer, input: &[u8], limit: usize)
    requires
        limit <= input@.len(),
        old(lx).index < usize::MAX,
    ensures
        final(lx)@ == slash_step(input@.subrange(0, limit as int), old(lx)@),
{
    if lx.inside_string {
        lx.push_part('/');
        return;
    }
    if lx.index + 1 >= limit {
        return;
    }
    match input[lx.index + 1] as char {
        '/' => {
            lx.line_comment = true;
            lx.skip();
        },
        '*' => {
            lx.multiline_comment = true;
            lx.skip();
        },
        '=' => {
            lx.emit(Tokens::DivideTo);
            lx.skip();
        },
        _ => {
            lx.emit(Tokens::Divide);
        },
    }
    lx.flush();
}

fn quotes_match(lx: &mut Lexer)
    ensures
        final(lx)@ == quotes_step(old(lx)@),
{
    let inside_comment = lx.inside_comment();
    if inside_comment {
    } else if !lx.inside_string && !lx.string_part.as_str().is_empty() {
        lx.flush();
    } else if lx.inside_string && !lx.backslash {
        lx.inside_string = false;
        let part = lx.string_part.clone();
        lx.string_part = String::new();
        lx.emit(Tokens::String(part));
    } else if lx.inside_string {
        lx.push_part('"');
    } else {
        lx.inside_string = true;
    }
    lx.backslash = false;
}

fn space_match(lx: &mut Lexer, cell: char)
    ensures
        final(lx)@ == space_step(old(lx)@, cell),
{
    let inside_comment = lx.inside_comment();
    if cell == '\n' {
        lx.line_comment = false;
    }
    if inside_comment {
        return;
    }
    if lx.inside_string {
        lx.push_part(cell);
        return;
    }
    lx.flush();
}

/// An operator that becomes `action_to` when the next byte is `=`: past
/// `limit` it is `action` without a look at the next byte; otherwise the
/// next byte is read, so it must exist.
fn two_cases_arithmetic(lx: &mut Lexer, input: &[u8], limit: usize, action: Tokens, action_to: Tokens)
    requires
        old(lx).index < usize::MAX,
        old(lx).index + 1 > limit || old(lx).index + 1 < input@.len(),
    ensures
        old(lx).index + 1 > limit ==> final(lx)@ == emitted(old(lx)@, action),
        old(lx).index + 1 <= limit ==> final(lx)@ == (if input@[old(lx).index + 1] as char == '=' {
            skipped(emitted(old(lx)@, action_to))
        } else {
            emitted(old(lx)@, action)
        }),
{
    if lx.index + 1 > limit {
        lx.emit(action);
        return;
    }
    let next = input[lx.index + 1] as char;
    match next {
        '=' => {
            lx.emit(action_to);
            lx.skip();
        },
        _ => {
            lx.emit(action);
        },
    }
}

fn sign_arithmetic(lx: &mut Lexer, input: &[u8], limit: usize, cell: char, single: Tokens, double: Tokens, with_equals: Tokens)
    requires
        limit == input@.len(),
        old(lx)@.index < limit,
        sign_step(input@, old(lx)@, cell, single, double, with_equals) is Some,
    ensures
        Some(final(lx)@) == sign_step(input@, old(lx)@, cell, single, double, with_equals),
{
    let next = input[lx.index + 1] as char;
    if next == cell {
        lx.emit(double);
        lx.skip();
    } else if next == '=' {
        lx.emit(with_equals);
        lx.skip();
    } else {
        lx.emit(single);
    }
}

fn arithmetic_match(lx: &mut Lexer, input: &[u8], limit: usize, cell: char)
    requires
        limit == input@.len(),
        old(lx)@.index < limit,
        arithmetic_step(input@, old(lx)@, cell) is Some,
    ensures
        Some(final(lx)@) == arithmetic_step(input@, old(lx)@, cell),
{
    if lx.multiline_comment {
        if cell != '*' {
            return;
        }
        let next = input[lx.index + 1] as char;
        if next == '/' {
            lx.multiline_comment = false;
            lx.skip();
        }
        return;
    }
    if lx.line_comment {
        return;
    }
    if lx.inside_string {
        lx.push_part(cell);
        return;
    }
    lx.flush();
    match cell {
        '+' => sign_arithmetic(lx, input, limit, '+', Tokens::Add, Tokens::Increment, Tokens::AddTo),
        '-' => sign_arithmetic(lx, input, limit, '-', Tokens::Subtract, Tokens::Decrement, Tokens::SubtractTo),
        '*' => two_cases_arithmetic(lx, input, limit, Tokens::Multiply, Tokens::MultiplyTo),
        '%' => two_cases_arithmetic(lx, input, limit, Tokens::Mod, Tokens::ModTo),
        _ => {},
    }
}

fn escape_characters_match(lx: &mut Lexer, cell: char, new: char)
    ensures
        final(lx)@ == escape_step(old(lx)@, cell, new),
{
    let inside_comment = lx.inside_comment();
    if inside_comment {
    } else if lx.inside_string && lx.backslash {
        lx.push_part(new);
    } else {
        lx.push_part(cell);
    }
    lx.backslash = false;
}

fn single_tokens(lx: &mut Lexer, cell: char, new: Tokens)
    ensures
        final(lx)@ == single_step(old(lx)@, cell, new),
{
    if lx.inside_comment() {
        return;
    }
    if lx.inside_string {
        lx.push_part(cell);
        return;
    }
    lx.flush();
    lx.emit(new);
}

/// `&` or `|` at the current position; only the bytes before `limit` are
/// looked at. A refused operator still ends the pending word.
fn boolean_operators(lx: &mut Lexer, input: &[u8], limit: usize, cell: char) -> (r: Result<(), LexerError>)
    requires
        limit <= input@.len(),
        old(lx).index < usize::MAX,
    ensures
        match boolean_step(input@.subrange(0, limit as int), old(lx)@, cell) {
            Ok(st) => r is Ok && final(lx)@ == st,
            Err(e) => r == Err::<(), LexerError>(e) && final(lx)@ == flushed(old(lx)@),
        },
{
    if lx.inside_comment() {
        return Ok(());
    }
    if lx.inside_string {
        lx.push_part(cell);
        return Ok(());
    }
    lx.flush();
    let next_index = lx.index + 1;
    let has_next = next_index < limit;
    match cell {
        '&' => {
            if !has_next {
                return Err(LexerError::OutOfBounds);
            }
            let next_token = input[next_index] as char;
            match next_token {
                '&' => {
                    lx.emit(Tokens::AndBool);
                    lx.skip();
                    Ok(())
                },
                c => Err(LexerError::UnexpectedOperator(c)),
            }
        },
        '|' => {
            if !has_next {
                return Err(LexerError::OutOfBounds);
            }
            let next_token = input[next_index] as char;
            match next_token {
                '|' => {
                    lx.emit(Tokens::OrBool);
                    lx.skip();
                    Ok(())
                },
                c => Err(LexerError::UnexpectedOperator(c)),
            }
        },
        _ => Err(LexerError::Unreachable),
    }
}

fn logical_operators(lx: &mut Lexer, input: &[u8], limit: usize, cell: char)
    requires
        limit == input@.len(),
        old(lx)@.index < limit,
        logical_step(input@, old(lx)@, cell) is Some,
    ensures
        Some(final(lx)@) == logical_step(input@, old(lx)@, cell),
{
    if lx.inside_comment() {
        return;
    }
    if lx.inside_string {
        lx.push_part(cell);
        return;
    }
    lx.flush();
    match cell {
        '=' => two_cases_arithmetic(lx, input, limit, Tokens::Equals, Tokens::EqualsTo),
        '>' => two_cases_arithmetic(lx, input, limit, Tokens::BiggerThan, Tokens::BiggerThanOrEqual),
        '<' => two_cases_arithmetic(lx, input, limit, Tokens::SmallerThan, Tokens::SmallerOrEqual),
        '!' => two_cases_arithmetic(lx, input, limit, Tokens::NotBool, Tokens::IsDifferent),
        _ => {},
    }
}

/// Whether reading the current byte would read past the last byte.
fn step_overruns(lx: &Lexer, input: &[u8], limit: usize) -> (r: bool)
    requires
        limit == input@.len(),
        lx@.index < limit,
    ensures
        r == (lex_step(input@, lx@) is None),
{
    if lx.index + 1 < limit {
        return false;
    }
    let cell = input[lx.index] as char;
    match cell {
        '*' => lx.multiline_comment || (!lx.line_comment && !lx.inside_string),
        '+' | '-' | '%' | '!' | '=' | '<' | '>' => !lx.multiline_comment && !lx.line_comment
            && !lx.inside_string,
        _ => false,
    }
}

/// Lexes a program. `None` where the lexer would read past the last byte
/// (see [`LexOutcome::Overrun`]); otherwise the tokens or the reason the
/// program is refused.
pub fn tokenize_checked(program: &String) -> (r: Option<Result<Vec<Tokens>, LexerError>>)
    ensures
        match lex_outcome(program) {
            LexOutcome::Overrun => r is None,
            LexOutcome::Failed(e) => r == Some(Err::<Vec<Tokens>, LexerError>(e)),
            LexOutcome::Done(t) => r matches Some(Ok(v)) && tokens_view(v@) == t,
        },
{
    let program_bytes = program.as_str().as_bytes();
    let mut lx = Lexer {
        out: Vec::new(),
        string_part: String::new(),
        index: 0,
        inside_string: false,
        line_comment: false,
        multiline_comment: false,
        backslash: false,
    };
    let limit = program_bytes.len();
    assert(lx@ == initial_state()) by {
        assert(tokens_view(lx.out@) =~= Seq::<TokenView>::empty());
    }
    assert(program_bytes@.subrange(0, limit as int) =~= program_bytes@);
    while lx.index < limit
        invariant
            limit == program_bytes@.len(),
            program_bytes@.subrange(0, limit as int) == program_bytes@,
            program_bytes@ == encode_utf8(program@),
            lx.index <= limit,
            lex_from(program_bytes@, lx@) == lex_outcome(program),
        decreases limit - lx.index,
    {
        if step_overruns(&lx, program_bytes, limit) {
            return None;
        }
        let cell = program_bytes[lx.index] as char;
        let ghost before = lx@;
        match cell {
            '/' => {
                lx.backslash = false;
                slash_match(&mut lx, program_bytes, limit);
            },
            '"' => {
                quotes_match(&mut lx);
            },
            ' ' | '\n' | '\t' => {
                lx.backslash = false;
                space_match(&mut lx, cell);
            },
            '*' | '+' | '-' | '%' => {
                lx.backslash = false;
                arithmetic_match(&mut lx, program_bytes, limit, cell);
            },
            'n' | 't' => {
                escape_characters_match(&mut lx, cell, if cell == 'n' { '\n' } else { '\t' });
            },
            '\\' => {
                if lx.inside_string && lx.backslash {
                    lx.backslash = false;
                    lx.push_part(cell);
                } else {
                    lx.backslash = true;
                }
            },
            ',' | '(' | ')' | '{' | '}' => {
                let token = get_single_token(cell);
                lx.backslash = false;
                single_tokens(&mut lx, cell, token);
            },
            '&' | '|' => {
                match boolean_operators(&mut lx, program_bytes, limit, cell) {
                    Err(v) => return Some(Err(v)),
                    _ => {},
                }
            },
            '!' | '=' | '<' | '>' => {
                logical_operators(&mut lx, program_bytes, limit, cell);
            },
            ';' => {
                lx.backslash = false;
                if lx.inside_string {
                    lx.push_part(cell);
                } else {
                    lx.flush();
                    lx.emit(Tokens::SemmiColon);
                }
            },
            _ => {
                lx.backslash = false;
                if !lx.inside_comment() {
                    lx.push_part(cell);
                }
            },
        }
        proof {
            lemma_step_advances(program_bytes@, before);
        }
        assert(lex_step(program_bytes@, before) == Some(Ok::<LexState, LexerError>(lx@)));
        lx.skip();
    }
    Some(Ok(lx.out))
}

/// Lexes a program: its tokens, or the reason it is refused.
/// Not for a program on which [`tokenize_checked`] gives `None`.
pub fn tokenize(program: &String) -> (r: Result<Vec<Tokens>, LexerError>)
    requires
        !(lex_outcome(program) is Overrun),
    ensures
        match lex_outcome(program) {
            LexOutcome::Failed(e) => r == Err::<Vec<Tokens>, LexerError>(e),
            LexOutcome::Done(t) => r matches Ok(v) && tokens_view(v@) == t,
            LexOutcome::Overrun => false,
        },
{
    match tokenize_checked(program) {
        Some(r) => r,
        // excluded by the precondition
        None => Ok(Vec::new()),
    }
}

// ---------------------------------------------------------------------------
// Laws of the lexer
// ---------------------------------------------------------------------------

/// The tokens other than words and string literals that the lexer
/// produces: every operator and punctuation token but `[`, `]`, `&`, `|`
/// and `Unkown`.
pub open spec fn is_lexer_symbol(t: Tokens) -> bool {
    match t {
        Tokens::Divide | Tokens::DivideTo | Tokens::Add | Tokens::Increment | Tokens::AddTo
        | Tokens::Subtract | Tokens::Decrement | Tokens::SubtractTo | Tokens::Multiply
        | Tokens::MultiplyTo | Tokens::Mod | Tokens::ModTo | Tokens::OpenParenthesis
        | Tokens::CloseParenthesis | Tokens::OpenCurlyBrackets | Tokens::CloseCurlyBrackets
        | Tokens::Comma | Tokens::AndBool | Tokens::OrBool | Tokens::Equals | Tokens::EqualsTo
        | Tokens::BiggerThan | Tokens::BiggerThanOrEqual | Tokens::SmallerThan
        | Tokens::SmallerOrEqual | Tokens::NotBool | Tokens::IsDifferent | Tokens::SemmiColon => true,
        _ => false,
    }
}

/// A token as the lexer produces it: a word of at least one character, a
/// string literal, or a symbol of [`is_lexer_symbol`].
pub open spec fn is_lexed_token(x: TokenView) -> bool {
    match x {
        TokenView::Statement(w) => w.len() > 0,
        TokenView::Text(_) => true,
        TokenView::Symbol(t) => is_lexer_symbol(t),
    }
}

pub open spec fn all_lexed(t: Seq<TokenView>) -> bool {
    forall|i: int| 0 <= i < t.len() ==> is_lexed_token(#[trigger] t[i])
}

/// Every word token of the sequence has at least one character.
pub open spec fn words_nonempty(t: Seq<TokenView>) -> bool {
    forall|i: int| 0 <= i < t.len() ==> (#[trigger] t[i] matches TokenView::Statement(w) ==> w.len() > 0)
}

proof fn lemma_lexed_push(t: Seq<TokenView>, x: TokenView)
    requires
        all_lexed(t),
        is_lexed_token(x),
    ensures
        all_lexed(t.push(x)),
{
    assert forall|i: int| 0 <= i < t.push(x).len() implies is_lexed_token(#[trigger] t.push(x)[i]) by {
        if i < t.len() {
            assert(t.push(x)[i] == t[i]);
        }
    }
}

proof fn lemma_flushed_lexed(st: LexState)
    requires
        all_lexed(st.out),
    ensures
        all_lexed(flushed(st).out),
{
    if st.part.len() > 0 {
        lemma_lexed_push(st.out, TokenView::Statement(st.part));
    }
}

proof fn lemma_step_keeps_lexed(s: Seq<u8>, st: LexState)
    requires
        0 <= st.index < s.len(),
        all_lexed(st.out),
    ensures
        lex_step(s, st) matches Some(Ok(st1)) ==> all_lexed(st1.out),
{
    let f = flushed(st);
    lemma_flushed_lexed(st);
    lemma_lexed_push(st.out, TokenView::Text(st.part));
    // every token emitted by a step is a lexer symbol
    assert forall|t: Tokens| #![trigger t@] is_lexer_symbol(t) implies all_lexed(f.out.push(t@))
        && all_lexed(st.out.push(t@)) by {
        lemma_lexed_push(f.out, t@);
        lemma_lexed_push(st.out, t@);
    }
}

proof fn lemma_lex_from_lexed(s: Seq<u8>, st: LexState)
    requires
        all_lexed(st.out),
    ensures
        lex_from(s, st) matches LexOutcome::Done(t) ==> all_lexed(t),
    decreases s.len() - st.index,
{
    if 0 <= st.index < s.len() {
        lemma_step_keeps_lexed(s, st);
        lemma_step_advances(s, st);
        if let Some(Ok(st1)) = lex_step(s, st) {
            lemma_lex_from_lexed(s, skipped(st1));
        }
    }
}

/// Every token that the lexer produces is a word of at least one
/// character, a string literal, or one of the symbols of
/// [`is_lexer_symbol`]: never `[`, `]`, `&`, `|` or `Unkown`.
pub proof fn law_tokens_are_lexed(s: Seq<u8>)
    ensures
        spec_tokenize(s) matches LexOutcome::Done(t) ==> all_lexed(t),
{
    lemma_lex_from_lexed(s, initial_state());
}

/// Every word token that the lexer produces has at least one character.
pub proof fn law_words_are_nonempty(s: Seq<u8>)
    ensures
        spec_tokenize(s) matches LexOutcome::Done(t) ==> words_nonempty(t),
{
    law_tokens_are_lexed(s);
    if let LexOutcome::Done(t) = spec_tokenize(s) {
        assert forall|i: int| 0 <= i < t.len() implies (#[trigger] t[i] matches TokenView::Statement(w)
            ==> w.len() > 0) by {
            assert(is_lexed_token(t[i]));
        }
    }
}

/// The bytes whose operator may take a second byte: `*`, `+`, `-`, `%`,
/// `!`, `=`, `<`, `>`.
pub open spec fn may_start_two_byte_operator(c: char) -> bool {
    is_arithmetic_char(c) || is_logical_char(c)
}

proof fn lemma_step_outcomes(s: Seq<u8>, st: LexState)
    requires
        0 <= st.index < s.len(),
    ensures
        lex_step(s, st) is None ==> st.index + 1 == s.len() && may_start_two_byte_operator(
            s[st.index] as char,
        ),
        lex_step(s, st) matches Some(Err(e)) ==> e != LexerError::Unreachable && (s[st.index]
            as char == '&' || s[st.index] as char == '|'),
{
}

proof fn lemma_lex_from_outcomes(s: Seq<u8>, st: LexState)
    requires
        0 <= st.index,
    ensures
        lex_from(s, st) matches LexOutcome::Failed(e) ==> e != LexerError::Unreachable && exists|
            i: int,
        |
            st.index <= i < s.len() && (#[trigger] s[i] as char == '&' || s[i] as char == '|'),
        lex_from(s, st) is Overrun ==> s.len() > 0 && may_start_two_byte_operator(s.last() as char),
    decreases s.len() - st.index,
{
    if st.index < s.len() {
        lemma_step_outcomes(s, st);
        lemma_step_advances(s, st);
        if let Some(Ok(st1)) = lex_step(s, st) {
            lemma_lex_from_outcomes(s, skipped(st1));
        }
    }
}

/// The lexer never refuses a program with `Unreachable`.
pub proof fn law_never_unreachable(s: Seq<u8>)
    ensures
        spec_tokenize(s) != LexOutcome::Failed(LexerError::Unreachable),
{
    lemma_lex_from_outcomes(s, initial_state());
}

/// A program without a byte `&` or `|` is never refused.
pub proof fn law_refusal_needs_and_or(s: Seq<u8>)
    requires
        forall|i: int| 0 <= i < s.len() ==> #[trigger] s[i] as char != '&' && s[i] as char != '|',
    ensures
        !(spec_tokenize(s) is Failed),
{
    lemma_lex_from_outcomes(s, initial_state());
}

/// The lexer reads past the end of a program only when the program's last
/// byte is one of `*`, `+`, `-`, `%`, `!`, `=`, `<`, `>`; so a program
/// that ends with any other byte (a newline, say) can be given to `tokenize`.
pub proof fn law_overrun_needs_operator_at_end(s: Seq<u8>)
    requires
        s.len() == 0 || !may_start_two_byte_operator(s.last() as char),
    ensures
        !(spec_tokenize(s) is Overrun),
{
    lemma_lex_from_outcomes(s, initial_state());
}

// ---------------------------------------------------------------------------
// A leading line comment
// ---------------------------------------------------------------------------

/// `st` with its position moved on by `k`.
pub open spec fn shifted(st: LexState, k: int) -> LexState {
    LexState { index: st.index + k, ..st }
}

proof fn lemma_step_shift(p: Seq<u8>, r: Seq<u8>, st: LexState)
    requires
        0 <= st.index < r.len(),
    ensures
        lex_step(p + r, shifted(st, p.len() as int)) == match lex_step(r, st) {
            None => None,
            Some(Err(e)) => Some(Err(e)),
            Some(Ok(st1)) => Some(Ok(shifted(st1, p.len() as int))),
        },
{
    let s = p + r;
    let k = p.len() as int;
    let sh = shifted(st, k);
    assert(s[sh.index] == r[st.index]);
    assert(has_next(s, sh) == has_next(r, st));
    if has_next(r, st) {
        assert(s[sh.index + 1] == r[st.index + 1]);
        assert(next_char(s, sh) == next_char(r, st));
    }
}

proof fn lemma_lex_from_shift(p: Seq<u8>, r: Seq<u8>, st: LexState)
    requires
        0 <= st.index,
    ensures
        lex_from(p + r, shifted(st, p.len() as int)) == lex_from(r, st),
    decreases r.len() - st.index,
{
    if st.index < r.len() {
        lemma_step_shift(p, r, st);
        lemma_step_advances(r, st);
        if let Some(Ok(st1)) = lex_step(r, st) {
            assert(skipped(shifted(st1, p.len() as int)) == shifted(skipped(st1), p.len() as int));
            lemma_lex_from_shift(p, r, skipped(st1));
        }
    }
}

/// Inside a line comment, before its end: nothing produced, nothing pending.
pub open spec fn in_fresh_line_comment(st: LexState) -> bool {
    &&& st.out.len() == 0
    &&& st.part.len() == 0
    &&& st.line_comment
    &&& !st.multiline_comment
    &&& !st.inside_string
}

/// No byte of `c` ends a line comment or makes a token inside one.
pub open spec fn plain_comment_text(c: Seq<u8>) -> bool {
    forall|k: int| 0 <= k < c.len() ==> #[trigger] c[k] != 10u8 && c[k] != 47u8 && c[k] != 59u8
}

proof fn lemma_comment_body(s: Seq<u8>, c: Seq<u8>, st: LexState)
    requires
        plain_comment_text(c),
        s.len() >= c.len() + 3int,
        forall|k: int| 0 <= k < c.len() ==> s[k + 2] == #[trigger] c[k],
        s[c.len() + 2int] == 10u8,
        in_fresh_line_comment(st),
        2 <= st.index <= c.len() + 2,
    ensures
        lex_from(s, st) == lex_from(s, shifted(initial_state(), c.len() + 3int)),
    decreases c.len() + 2 - st.index,
{
    let b = s[st.index];
    if st.index < c.len() + 2 {
        assert(b == c[st.index - 2]);
        let st1 = lex_step(s, st)->0->Ok_0;
        assert(lex_step(s, st) == Some(Ok::<LexState, LexerError>(st1)));
        assert(in_fresh_line_comment(st1) && st1.index == st.index);
        lemma_comment_body(s, c, skipped(st1));
    } else {
        let st1 = lex_step(s, st)->0->Ok_0;
        assert(lex_step(s, st) == Some(Ok::<LexState, LexerError>(st1)));
        assert(st1.out =~= Seq::<TokenView>::empty());
        assert(st1.part =~= Seq::<char>::empty());
        assert(skipped(st1) == shifted(initial_state(), c.len() + 3int));
    }
}

/// A program that starts with a line comment, `//` then bytes none of which
/// is a newline, `/` or `;`, then a newline, is lexed as the rest of it
/// alone: the same tokens, the same refusal, or the same read past the end.
pub proof fn law_leading_line_comment_is_ignored(c: Seq<u8>, rest: Seq<u8>)
    requires
        plain_comment_text(c),
    ensures
        spec_tokenize(seq![47u8, 47u8] + c + seq![10u8] + rest) == spec_tokenize(rest),
{
    let p = seq![47u8, 47u8] + c + seq![10u8];
    let s = p + rest;
    assert(p.len() == c.len() + 3int);
    assert forall|k: int| 0 <= k < c.len() implies s[k + 2] == #[trigger] c[k] by {
        assert(p[k + 2] == c[k]);
    }
    assert(s[0] == 47u8 && s[1] == 47u8 && s[c.len() + 2int] == 10u8);
    let st0 = initial_state();
    let st1 = lex_step(s, st0)->0->Ok_0;
    assert(lex_step(s, st0) == Some(Ok::<LexState, LexerError>(st1)));
    assert(in_fresh_line_comment(skipped(st1)) && skipped(st1).index == 2);
    lemma_comment_body(s, c, skipped(st1));
    lemma_lex_from_shift(p, rest, initial_state());
    assert(shifted(initial_state(), c.len() + 3int) == shifted(initial_state(), p.len() as int));
}

/// No character of `c` is a newline, `/` or `;`.
pub open spec fn plain_comment_chars(c: Seq<char>) -> bool {
    forall|k: int| 0 <= k < c.len() ==> #[trigger] c[k] != '\n' && c[k] != '/' && c[k] != ';'
}

proof fn lemma_plain_comment_bytes(c: Seq<char>)
    requires
        plain_comment_chars(c),
    ensures
        plain_comment_text(encode_utf8(c)),
    decreases c.len(),
{
    if c.len() > 0 {
        lemma_encode_scalar_bytes(c[0]);
        assert(plain_comment_chars(c.drop_first()));
        lemma_plain_comment_bytes(c.drop_first());
        let h = encode_scalar(c[0] as u32);
        let t = encode_utf8(c.drop_first());
        assert(encode_utf8(c) == h + t);
        assert forall|k: int| 0 <= k < (h + t).len() implies #[trigger] (h + t)[k] != 10u8 && (h + t)[k] != 47u8
            && (h + t)[k] != 59u8 by {
            if k < h.len() {
                assert((h + t)[k] == h[k]);
                if (c[0] as u32) < 128 {
                    assert(h[k] == c[0] as u32 as u8);
                    assert(c[0] != '\n' && c[0] != '/' && c[0] != ';');
                    char_u32_cast(c[0], c[0] as u32);
                    char_u32_cast('\n', '\n' as u32);
                    char_u32_cast('/', '/' as u32);
                    char_u32_cast(';', ';' as u32);
                    assert((h[k] as u32) == c[0] as u32);
                } else {
                    assert(h[k] >= 128u8);
                }
            } else {
                assert((h + t)[k] == t[k - h.len()]);
            }
        }
    }
}

proof fn lemma_encode_ascii_char(c: char)
    requires
        (c as u32) < 128,
    ensures
        encode_utf8(seq![c]) == seq![c as u32 as u8],
{
    lemma_encode_scalar_bytes(c);
    assert(seq![c].drop_first() =~= Seq::<char>::empty());
    assert(encode_utf8(seq![c]) == encode_scalar(c as u32) + encode_utf8(Seq::<char>::empty()));
    assert(encode_scalar(c as u32) + Seq::<u8>::empty() =~= encode_scalar(c as u32));
}

/// A program that starts with a line comment, `//` then characters none of
/// which is a newline, `/` or `;`, then a newline, is lexed as the rest of
/// it alone: the same tokens, the same refusal, or the same read past the
/// end.
pub proof fn law_leading_line_comment_is_ignored_in_text(comment: Seq<char>, rest: Seq<char>)
    requires
        plain_comment_chars(comment),
    ensures
        spec_tokenize(encode_utf8("//"@ + comment + "\n"@ + rest)) == spec_tokenize(encode_utf8(rest)),
{
    reveal_strlit("//");
    reveal_strlit("\n");
    assert("//"@ =~= seq!['/'] + seq!['/']);
    lemma_encode_ascii_char('/');
    lemma_encode_ascii_char('\n');
    lemma_encode_utf8_concat(seq!['/'], seq!['/']);
    assert(encode_utf8("//"@) =~= seq![47u8, 47u8]);
    assert("\n"@ =~= seq!['\n']);
    assert(encode_utf8("\n"@) == seq![10u8]);
    lemma_encode_utf8_concat("//"@, comment);
    lemma_encode_utf8_concat("//"@ + comment, "\n"@);
    lemma_encode_utf8_concat("//"@ + comment + "\n"@, rest);
    lemma_plain_comment_bytes(comment);
    law_leading_line_comment_is_ignored(encode_utf8(comment), encode_utf8(rest));
}

// ---------------------------------------------------------------------------
// String literals
// ---------------------------------------------------------------------------

/// No byte of `b` is a quote or a backslash.
pub open spec fn plain_string_text(b: Seq<u8>) -> bool {
    forall|k: int| 0 <= k < b.len() ==> #[trigger] b[k] != 34u8 && b[k] != 92u8
}

/// Each byte read as the character of the same value, as the lexer reads them.
pub open spec fn bytes_as_chars(b: Seq<u8>) -> Seq<char> {
    b.map_values(|x: u8| x as char)
}

/// Reading a string literal whose text `b` is at positions 1.. of `s`,
/// with the closing quote after it.
pub open spec fn in_string_literal(s: Seq<u8>, b: Seq<u8>, st: LexState) -> bool {
    &&& st.out.len() == 0
    &&& st.inside_string
    &&& !st.line_comment
    &&& !st.multiline_comment
    &&& !st.backslash
    &&& 1 <= st.index <= b.len() + 1
    &&& st.part == bytes_as_chars(b.subrange(0, st.index - 1))
}

/// The state right after a closing quote: the literal is the one token.
pub open spec fn after_string_literal(b: Seq<u8>) -> LexState {
    LexState {
        out: seq![TokenView::Text(bytes_as_chars(b))],
        part: Seq::empty(),
        index: b.len() + 2int,
        inside_string: false,
        line_comment: false,
        multiline_comment: false,
        backslash: false,
    }
}

proof fn lemma_string_body(s: Seq<u8>, b: Seq<u8>, st: LexState)
    requires
        plain_string_text(b),
        s.len() >= b.len() + 2,
        forall|k: int| 0 <= k < b.len() ==> s[k + 1] == #[trigger] b[k],
        s[b.len() + 1int] == 34u8,
        in_string_literal(s, b, st),
    ensures
        lex_from(s, st) == lex_from(s, after_string_literal(b)),
    decreases b.len() + 1 - st.index,
{
    let byte = s[st.index];
    let st1 = lex_step(s, st)->0->Ok_0;
    if st.index < b.len() + 1 {
        assert(byte == b[st.index - 1]);
        assert(byte != 34u8 && byte != 92u8);
        char_u32_cast('"', '"' as u32);
        char_u32_cast('\\', '\\' as u32);
        assert(lex_step(s, st) == Some(Ok::<LexState, LexerError>(st1)));
        assert(st1 == LexState { part: st.part.push(byte as char), line_comment: false, ..st });
        assert(st.part.push(byte as char) =~= bytes_as_chars(b.subrange(0, st.index)));
        lemma_string_body(s, b, skipped(st1));
    } else {
        assert(lex_step(s, st) == Some(Ok::<LexState, LexerError>(st1)));
        assert(st.part =~= bytes_as_chars(b));
        assert(st1.out =~= seq![TokenView::Text(bytes_as_chars(b))]);
        assert(skipped(st1) == after_string_literal(b));
    }
}

proof fn lemma_string_start(s: Seq<u8>, b: Seq<u8>)
    requires
        plain_string_text(b),
        s.len() >= b.len() + 2,
        s[0] == 34u8,
        forall|k: int| 0 <= k < b.len() ==> s[k + 1] == #[trigger] b[k],
        s[b.len() + 1int] == 34u8,
    ensures
        spec_tokenize(s) == lex_from(s, after_string_literal(b)),
{
    let st0 = initial_state();
    let st1 = lex_step(s, st0)->0->Ok_0;
    assert(lex_step(s, st0) == Some(Ok::<LexState, LexerError>(st1)));
    assert(bytes_as_chars(b.subrange(0, 0)) =~= Seq::<char>::empty());
    assert(in_string_literal(s, b, skipped(st1)));
    lemma_string_body(s, b, skipped(st1));
}

/// Inside a string literal every byte other than a quote or a backslash
/// joins the literal, punctuation, operators, `;`, spaces and comment
/// openers included: a quote, text without quote or backslash, and a quote
/// lex as exactly one string token holding that text, alone or followed by
/// a space.
pub proof fn law_string_literal_keeps_its_text(b: Seq<u8>)
    requires
        plain_string_text(b),
    ensures
        spec_tokenize(seq![34u8] + b + seq![34u8]) == LexOutcome::Done(seq![TokenView::Text(bytes_as_chars(b))]),
        spec_tokenize(seq![34u8] + b + seq![34u8, 32u8]) == LexOutcome::Done(
            seq![TokenView::Text(bytes_as_chars(b))],
        ),
{
    let s1 = seq![34u8] + b + seq![34u8];
    assert forall|k: int| 0 <= k < b.len() implies s1[k + 1] == #[trigger] b[k] by {}
    assert(s1[0] == 34u8 && s1[b.len() + 1int] == 34u8);
    lemma_string_start(s1, b);
    let s2 = seq![34u8] + b + seq![34u8, 32u8];
    assert forall|k: int| 0 <= k < b.len() implies s2[k + 1] == #[trigger] b[k] by {}
    assert(s2[0] == 34u8 && s2[b.len() + 1int] == 34u8 && s2[b.len() + 2int] == 32u8);
    lemma_string_start(s2, b);
    let after = after_string_literal(b);
    let st1 = lex_step(s2, after)->0->Ok_0;
    assert(lex_step(s2, after) == Some(Ok::<LexState, LexerError>(st1)));
    assert(st1 == after);
    assert(lex_from(s2, skipped(after)) == LexOutcome::Done(after.out));
}

} // verus!
