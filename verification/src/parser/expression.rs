//! Expressions: from tokens to the parts of an expression.
use vstd::prelude::*;
use vstd::utf8::encode_utf8;
use crate::ast::{
    ArrayCall, ArrayCallMod, Expr, ExprOperations, ExprView, FuncCall, ModifyingOperation, OpsView,
    VarAssign, VarCalling, copy_expr, copy_exprs, exprs_view, lemma_exprs_view_index, lemma_exprs_view_len,
    lemma_exprs_view_push, lemma_opss_view_push, opss_view,
};
use crate::lexer::tokens::{TokenView, Tokens, tokens_view};
use crate::text::{lemma_encode_utf8_empty, same_text};

verus! {

/// What an expression part that was just read ended with.
#[derive(Debug, PartialEq, Eq)]
pub enum ComingFrom {
    SquaredBrackets,
    Parenthesis,
    Elsewhere,
}

// ---------------------------------------------------------------------------
// Positions
// ---------------------------------------------------------------------------

/// How many tokens are left from position `i` on.
pub open spec fn remaining(n: int, i: int) -> nat {
    if i < n {
        (n - i) as nat
    } else {
        0
    }
}

/// A measure of a position in a stream of `n` tokens: it falls by 15 with
/// each token read, and beyond the end it is the position itself. Parsing
/// from a position ends at a position whose measure is at most a small
/// constant above it, which keeps every position far from `usize::MAX`.
pub open spec fn phi(n: int, i: int) -> int {
    if i < n {
        16 * n - 15 * i
    } else {
        i
    }
}

/// There is room above the measure of position `i` for `b` more steps.
pub open spec fn fits(n: int, i: int, b: int) -> bool {
    0 <= i && 0 <= n && phi(n, i) + b + 64 <= usize::MAX
}

pub open spec fn is_symbol(t: TokenView, s: Tokens) -> bool {
    t == TokenView::Symbol(s)
}

pub open spec fn ops(instructions: Seq<ExprView>, is_bool: bool) -> OpsView {
    OpsView { instructions, is_bool }
}

// ---------------------------------------------------------------------------
// Normalizing: `a * b` and the like are grouped into one part
// ---------------------------------------------------------------------------

/// The operators at which a group of `*`, `/`, `%` operations ends.
pub open spec fn ends_group(e: ExprView) -> bool {
    match e {
        ExprView::Add | ExprView::Subtract | ExprView::Equals | ExprView::Different
        | ExprView::BiggerThan | ExprView::BiggerOrEqual | ExprView::SmallerThan
        | ExprView::SmallerOrEqual | ExprView::OR | ExprView::AND | ExprView::NOT => true,
        _ => false,
    }
}

/// A value: a string, a variable, a number or a function call.
pub open spec fn is_operand(e: ExprView) -> bool {
    match e {
        ExprView::String(_) | ExprView::VarCall(_) | ExprView::Number(_) | ExprView::FuncCall(
            _,
            _,
        ) => true,
        _ => false,
    }
}

pub open spec fn is_multiplicative(e: ExprView) -> bool {
    match e {
        ExprView::Divide | ExprView::Multiply | ExprView::Mod => true,
        _ => false,
    }
}

/// The parts from `i` on up to the first operator that ends a group, added
/// to `acc`, and the position of that operator (or the end).
pub open spec fn spec_until_op(input: Seq<ExprView>, i: int, acc: Seq<ExprView>) -> (Seq<ExprView>, int)
    decreases input.len() - i,
{
    if i < 0 || i >= input.len() || ends_group(input[i]) {
        (acc, i)
    } else {
        spec_until_op(input, i + 1, acc.push(input[i]))
    }
}

pub proof fn lemma_until_op_advances(input: Seq<ExprView>, i: int, acc: Seq<ExprView>)
    ensures
        spec_until_op(input, i, acc).1 >= i,
        0 <= i < input.len() && !ends_group(input[i]) ==> spec_until_op(input, i, acc).1 > i,
        i <= input.len() ==> spec_until_op(input, i, acc).1 <= input.len(),
    decreases input.len() - i,
{
    if !(i < 0 || i >= input.len() || ends_group(input[i])) {
        lemma_until_op_advances(input, i + 1, acc.push(input[i]));
    }
}

/// Normalizing the parts from `i` on, after `out`.
pub open spec fn spec_normalize_from(input: Seq<ExprView>, i: int, out: Seq<ExprView>) -> Seq<ExprView>
    decreases remaining(input.len() as int, i),
{
    if i < 0 || i >= input.len() {
        out
    } else {
        let cur = input[i];
        if is_operand(cur) && i + 1 >= input.len() {
            out.push(cur)
        } else if is_operand(cur) && is_multiplicative(input[i + 1]) {
            let (group, j) = spec_until_op(input, i, Seq::empty());
            proof {
                lemma_until_op_advances(input, i, Seq::empty());
            }
            let out1 = out.push(ExprView::Operations(ops(group, false)));
            let out2 = if j < input.len() {
                out1.push(input[j])
            } else {
                out1
            };
            spec_normalize_from(input, j + 1, out2)
        } else {
            spec_normalize_from(input, i + 1, out.push(cur))
        }
    }
}

/// A group of operations that starts with a value followed by `*`, `/` or
/// `%` becomes one `Operations` part, up to the next operator that ends the
/// group; that operator follows it; every other part stays as it is. A
/// value that is the last part ends the normalizing.
pub open spec fn spec_normalize(input: Seq<ExprView>) -> Seq<ExprView> {
    spec_normalize_from(input, 0, Seq::empty())
}

// ---------------------------------------------------------------------------
// Reading an expression from tokens
// ---------------------------------------------------------------------------

/// The first byte of a word's UTF-8 text is a digit from `0` to `8`: the
/// word is a number literal.
pub open spec fn starts_with_digit(w: Seq<char>) -> bool {
    let b = encode_utf8(w)[0] as char;
    '0' <= b && b < '9'
}

/// A part that changes a variable, by its operator token.
pub open spec fn modifying_part(op: Tokens, name: Seq<char>, value: OpsView) -> ExprView {
    match op {
        Tokens::AddTo => ExprView::AddTo(name, value),
        Tokens::SubtractTo => ExprView::SubtractTo(name, value),
        Tokens::MultiplyTo => ExprView::MultiplyTo(name, value),
        Tokens::DivideTo => ExprView::DivideTo(name, value),
        _ => ExprView::ModTo(name, value),
    }
}

pub open spec fn is_modifying_token(t: TokenView) -> bool {
    is_symbol(t, Tokens::AddTo) || is_symbol(t, Tokens::SubtractTo) || is_symbol(
        t,
        Tokens::MultiplyTo,
    ) || is_symbol(t, Tokens::DivideTo) || is_symbol(t, Tokens::ModTo)
}

/// Reading an expression from position `i`: the normalized parts, whether
/// it is a condition, and how many positions the reading moved on.
/// `None` where the reading looks at a token past the end.
pub open spec fn spec_parse_expression(t: Seq<TokenView>, i: int) -> Option<(Seq<ExprView>, bool, nat)>
    decreases remaining(t.len() as int, i), 4nat,
{
    match spec_expression_loop(t, i, i, Seq::empty(), false) {
        Some((out, is_bool, adv)) => Some((spec_normalize(out), is_bool, adv)),
        None => None,
    }
}

/// What reading one token of an expression gives.
pub enum ExprStep {
    /// the expression ends, the position having moved on by the count
    Stop(Seq<ExprView>, bool, nat),
    /// the expression may go on after the position moved on by the count
    Next(Seq<ExprView>, bool, nat, ComingFrom),
}

/// The comparison and boolean operators, by token.
pub open spec fn condition_part(t: TokenView) -> Option<ExprView> {
    if is_symbol(t, Tokens::EqualsTo) {
        Some(ExprView::Equals)
    } else if is_symbol(t, Tokens::IsDifferent) {
        Some(ExprView::Different)
    } else if is_symbol(t, Tokens::BiggerThan) {
        Some(ExprView::BiggerThan)
    } else if is_symbol(t, Tokens::BiggerThanOrEqual) {
        Some(ExprView::BiggerOrEqual)
    } else if is_symbol(t, Tokens::SmallerThan) {
        Some(ExprView::SmallerThan)
    } else if is_symbol(t, Tokens::SmallerOrEqual) {
        Some(ExprView::SmallerOrEqual)
    } else if is_symbol(t, Tokens::NotBool) {
        Some(ExprView::NOT)
    } else if is_symbol(t, Tokens::OrBool) {
        Some(ExprView::OR)
    } else if is_symbol(t, Tokens::AndBool) {
        Some(ExprView::AND)
    } else {
        None
    }
}

/// The arithmetic operators, by token.
pub open spec fn arithmetic_part(t: TokenView) -> Option<ExprView> {
    if is_symbol(t, Tokens::Add) {
        Some(ExprView::Add)
    } else if is_symbol(t, Tokens::Subtract) {
        Some(ExprView::Subtract)
    } else if is_symbol(t, Tokens::Multiply) {
        Some(ExprView::Multiply)
    } else if is_symbol(t, Tokens::Divide) {
        Some(ExprView::Divide)
    } else if is_symbol(t, Tokens::Mod) {
        Some(ExprView::Mod)
    } else {
        None
    }
}

/// Reading the token at `i` (which exists) as a part of an expression.
pub open spec fn spec_expression_step(t: Seq<TokenView>, i: int, out: Seq<ExprView>, is_bool: bool) -> Option<ExprStep>
    decreases remaining(t.len() as int, i), 2nat,
{
    if !(0 <= i < t.len()) {
        None
    } else {
        let cur = t[i];
        if arithmetic_part(cur) is Some {
            Some(ExprStep::Next(out.push(arithmetic_part(cur)->0), is_bool, 0, ComingFrom::Elsewhere))
        } else if condition_part(cur) is Some {
            Some(ExprStep::Next(out.push(condition_part(cur)->0), true, 0, ComingFrom::Elsewhere))
        } else if is_symbol(cur, Tokens::OpenParenthesis) {
            match spec_parse_expression(t, i + 1) {
                Some((inner, inner_bool, a)) => Some(
                    ExprStep::Next(
                        out.push(ExprView::Operations(ops(inner, inner_bool))),
                        is_bool,
                        1 + a,
                        ComingFrom::Parenthesis,
                    ),
                ),
                None => None,
            }
        } else if cur is Text {
            Some(ExprStep::Next(out.push(ExprView::String(cur->Text_0)), is_bool, 0, ComingFrom::Elsewhere))
        } else if cur is Statement {
            match spec_statement_expr(cur->Statement_0, t, i, out) {
                Some((out1, should_break, coming, a)) => if should_break {
                    Some(ExprStep::Stop(out1, is_bool, a))
                } else {
                    Some(ExprStep::Next(out1, is_bool, a, coming))
                },
                None => None,
            }
        } else if is_symbol(cur, Tokens::OpenSquaredBrackets) {
            match spec_argument_loop(t, i + 1, i + 1, Seq::empty(), true) {
                Some((args, a)) => Some(
                    ExprStep::Next(out.push(ExprView::Array(args)), is_bool, 1 + a, ComingFrom::SquaredBrackets),
                ),
                None => None,
            }
        } else {
            Some(ExprStep::Stop(out, is_bool, 0))
        }
    }
}

/// After a part that ended at position `j`: the token there ends the expression.
pub open spec fn ends_expression(t: Seq<TokenView>, j: int, coming: ComingFrom) -> bool {
    0 <= j < t.len() && (is_symbol(t[j], Tokens::SemmiColon) || is_symbol(t[j], Tokens::Comma)
        || is_symbol(t[j], Tokens::CloseCurlyBrackets) || (is_symbol(
        t[j],
        Tokens::CloseSquaredBrackets,
    ) && coming != ComingFrom::SquaredBrackets) || (is_symbol(t[j], Tokens::CloseParenthesis)
        && coming != ComingFrom::Parenthesis))
}

/// Reading the parts of an expression from position `i` on, after `out`;
/// the count is how far the reading moved on from `start`.
pub open spec fn spec_expression_loop(t: Seq<TokenView>, start: int, i: int, out: Seq<ExprView>, is_bool: bool) -> Option<(Seq<ExprView>, bool, nat)>
    decreases remaining(t.len() as int, i), 3nat,
{
    if !(0 <= i < t.len()) {
        Some((out, is_bool, (i - start) as nat))
    } else {
        match spec_expression_step(t, i, out, is_bool) {
            None => None,
            Some(ExprStep::Stop(out1, b1, a)) => Some((out1, b1, (i + a - start) as nat)),
            Some(ExprStep::Next(out1, b1, a, coming)) => {
                let j = i + a;
                if ends_expression(t, j, coming) {
                    Some((out1, b1, (j - start) as nat))
                } else {
                    spec_expression_loop(t, start, j + 1, out1, b1)
                }
            },
        }
    }
}

pub open spec fn is_closing(t: TokenView, square: bool) -> bool {
    if square {
        is_symbol(t, Tokens::CloseSquaredBrackets)
    } else {
        is_symbol(t, Tokens::CloseParenthesis)
    }
}

/// Reading the arguments of a call (`square` false) or the items of an
/// array (`square` true) from position `i` on, after `args`.
pub open spec fn spec_argument_loop(t: Seq<TokenView>, start: int, i: int, args: Seq<OpsView>, square: bool) -> Option<(Seq<OpsView>, nat)>
    decreases remaining(t.len() as int, i), 5nat,
{
    if !(0 <= i < t.len()) || is_closing(t[i], square) {
        Some((args, (i - start) as nat))
    } else {
        match spec_parse_expression(t, i) {
            Some((arg, arg_bool, a)) => {
                let j = i + a;
                let args1 = args.push(ops(arg, arg_bool));
                if j >= t.len() {
                    None
                } else if is_closing(t[j], square) {
                    Some((args1, (j - start) as nat))
                } else {
                    spec_argument_loop(t, start, j + 1, args1, square)
                }
            },
            None => None,
        }
    }
}

/// Reading an expression part that starts with the word `name` at position
/// `i`: the parts after it is added to `out`, whether the expression ends
/// there, what the part ended with, and how far the reading moved on.
pub open spec fn spec_statement_expr(name: Seq<char>, t: Seq<TokenView>, i: int, out: Seq<ExprView>) -> Option<(Seq<ExprView>, bool, ComingFrom, nat)>
    decreases remaining(t.len() as int, i), 1nat,
{
    if i < 0 {
        None
    } else if name == "read"@ {
        Some((out.push(ExprView::Read), false, ComingFrom::Elsewhere, 0))
    } else if name == "internal"@ {
        if i + 1 >= t.len() {
            Some((out, true, ComingFrom::Elsewhere, 0))
        } else if t[i + 1] is Text {
            if i + 2 >= t.len() {
                None
            } else if is_symbol(t[i + 2], Tokens::OpenParenthesis) {
                match spec_argument_loop(t, i + 2, i + 2, Seq::empty(), false) {
                    Some((args, a)) => Some(
                        (
                            out.push(ExprView::Internal(t[i + 1]->Text_0, args)),
                            false,
                            ComingFrom::Elsewhere,
                            2 + a,
                        ),
                    ),
                    None => None,
                }
            } else {
                Some((out, true, ComingFrom::Elsewhere, 2))
            }
        } else {
            Some((out, false, ComingFrom::Elsewhere, 1))
        }
    } else if name.len() == 0 {
        None
    } else if starts_with_digit(name) {
        Some((out.push(ExprView::Number(name)), false, ComingFrom::Elsewhere, 0))
    } else if i + 1 >= t.len() {
        Some((out.push(ExprView::VarCall(name)), true, ComingFrom::Elsewhere, 0))
    } else {
        let next = t[i + 1];
        if is_symbol(next, Tokens::OpenParenthesis) {
            match spec_argument_loop(t, i + 2, i + 2, Seq::empty(), false) {
                Some((args, a)) => Some(
                    (out.push(ExprView::FuncCall(name, args)), false, ComingFrom::Parenthesis, 2 + a),
                ),
                None => None,
            }
        } else if is_symbol(next, Tokens::OpenSquaredBrackets) {
            match spec_parse_expression(t, i + 2) {
                Some((at, at_bool, a)) => {
                    let j = i + 2 + a;
                    let out1 = if !(j + 2 < t.len()) {
                        out.push(ExprView::ArrayCall(name, ops(at, at_bool)))
                    } else {
                        out
                    };
                    if j + 1 >= t.len() {
                        None
                    } else if is_symbol(t[j + 1], Tokens::Equals) {
                        match spec_parse_expression(t, j + 2) {
                            Some((value, value_bool, a2)) => Some(
                                (
                                    out1.push(
                                        ExprView::ArrayCallMod(
                                            name,
                                            ops(at, at_bool),
                                            ops(value, value_bool),
                                        ),
                                    ),
                                    true,
                                    ComingFrom::Elsewhere,
                                    (j + 2 + a2 - i) as nat,
                                ),
                            ),
                            None => None,
                        }
                    } else {
                        Some(
                            (
                                out1.push(ExprView::ArrayCall(name, ops(at, at_bool))),
                                false,
                                ComingFrom::SquaredBrackets,
                                (j - i) as nat,
                            ),
                        )
                    }
                },
                None => None,
            }
        } else if is_modifying_token(next) {
            match spec_parse_expression(t, i + 2) {
                Some((value, value_bool, a)) => Some(
                    (
                        out.push(modifying_part(next->Symbol_0, name, ops(value, value_bool))),
                        true,
                        ComingFrom::Elsewhere,
                        2 + a,
                    ),
                ),
                None => None,
            }
        } else if is_symbol(next, Tokens::Increment) {
            Some((out.push(ExprView::Increment(name)), false, ComingFrom::Elsewhere, 1))
        } else if is_symbol(next, Tokens::Decrement) {
            Some((out.push(ExprView::Decrement(name)), false, ComingFrom::Elsewhere, 1))
        } else if is_symbol(next, Tokens::Equals) {
            match spec_parse_expression(t, i + 2) {
                Some((value, value_bool, a)) => Some(
                    (
                        out.push(ExprView::VarAssign(name, ops(value, value_bool))),
                        false,
                        ComingFrom::Elsewhere,
                        2 + a,
                    ),
                ),
                None => None,
            }
        } else {
            Some((out.push(ExprView::VarCall(name)), false, ComingFrom::Elsewhere, 0))
        }
    }
}

// ---------------------------------------------------------------------------
// Normalizing
// ---------------------------------------------------------------------------

fn ends_group_expr(e: &Expr) -> (r: bool)
    ensures
        r == ends_group(e@),
{
    match e {
        Expr::Add | Expr::Subtract | Expr::Equals | Expr::Different | Expr::BiggerThan
        | Expr::BiggerOrEqual | Expr::SmallerThan | Expr::SmallerOrEqual | Expr::OR | Expr::AND
        | Expr::NOT => true,
        _ => false,
    }
}

fn is_operand_expr(e: &Expr) -> (r: bool)
    ensures
        r == is_operand(e@),
{
    match e {
        Expr::String(_) | Expr::VarCall(_) | Expr::Number(_) | Expr::FuncCall(_) => true,
        _ => false,
    }
}

fn is_multiplicative_expr(e: &Expr) -> (r: bool)
    ensures
        r == is_multiplicative(e@),
{
    match e {
        Expr::Divide | Expr::Multiply | Expr::Mod => true,
        _ => false,
    }
}

/// The parts from `index` on up to the first operator that ends a group of
/// `*`, `/`, `%` operations; `index` moves to that operator (or the end).
pub fn continue_until_another_op(input: &Vec<Expr>, index: &mut usize) -> (r: Vec<Expr>)
    ensures
        (exprs_view(r@), *final(index) as int) == spec_until_op(
            exprs_view(input@),
            *old(index) as int,
            Seq::empty(),
        ),
{
    let mut out: Vec<Expr> = Vec::new();
    let ghost iv = exprs_view(input@);
    let ghost total = spec_until_op(iv, *index as int, Seq::empty());
    proof {
        lemma_exprs_view_len(input@);
        assert(exprs_view(out@) =~= Seq::<ExprView>::empty());
    }
    while *index < input.len()
        invariant
            iv == exprs_view(input@),
            iv.len() == input@.len(),
            spec_until_op(iv, *index as int, exprs_view(out@)) == total,
            total == spec_until_op(iv, *old(index) as int, Seq::empty()),
        decreases input@.len() - *index,
    {
        let current = &input[*index];
        proof {
            lemma_exprs_view_index(input@, *index as int);
        }
        if ends_group_expr(current) {
            assert(spec_until_op(iv, *index as int, exprs_view(out@)) == (exprs_view(out@), *index as int));
            return out;
        }
        let e = copy_expr(current);
        proof {
            lemma_exprs_view_push(out@, e);
        }
        out.push(e);
        *index += 1;
    }
    assert(spec_until_op(iv, *index as int, exprs_view(out@)) == (exprs_view(out@), *index as int));
    out
}

/// Groups each run of `*`, `/`, `%` operations that starts with a value
/// into one `Operations` part (see [`spec_normalize`]).
pub fn normalize_parse_expression(input: &Vec<Expr>) -> (r: Vec<Expr>)
    requires
        input@.len() < usize::MAX,
    ensures
        exprs_view(r@) == spec_normalize(exprs_view(input@)),
{
    let mut out: Vec<Expr> = Vec::new();
    let mut i: usize = 0;
    let ghost iv = exprs_view(input@);
    proof {
        lemma_exprs_view_len(input@);
        assert(exprs_view(out@) =~= Seq::<ExprView>::empty());
    }
    while i < input.len()
        invariant
            iv == exprs_view(input@),
            iv.len() == input@.len(),
            input@.len() < usize::MAX,
            i <= input@.len() + 1,
            spec_normalize_from(iv, i as int, exprs_view(out@)) == spec_normalize(iv),
        decreases input@.len() + 1 - i,
    {
        let mut we_coming_operation = false;
        let current = &input[i];
        proof {
            lemma_exprs_view_index(input@, i as int);
        }
        if is_operand_expr(current) {
            if i + 1 >= input.len() {
                let e = copy_expr(current);
                proof {
                    lemma_exprs_view_push(out@, e);
                }
                out.push(e);
                return out;
            }
            let next = &input[i + 1];
            proof {
                lemma_exprs_view_index(input@, i + 1);
            }
            if is_multiplicative_expr(next) {
                let ghost before = i as int;
                let op = continue_until_another_op(input, &mut i);
                proof {
                    lemma_until_op_advances(iv, before, Seq::empty());
                }
                let e = Expr::Operations(ExprOperations { instructions: op, is_bool: false });
                proof {
                    lemma_exprs_view_push(out@, e);
                }
                out.push(e);
                we_coming_operation = true;
            } else {
                let e = copy_expr(current);
                proof {
                    lemma_exprs_view_push(out@, e);
                }
                out.push(e);
            }
        } else {
            let e = copy_expr(current);
            proof {
                lemma_exprs_view_push(out@, e);
            }
            out.push(e);
        }
        if we_coming_operation && i < input.len() {
            proof {
                lemma_exprs_view_index(input@, i as int);
            }
            let e = copy_expr(&input[i]);
            proof {
                lemma_exprs_view_push(out@, e);
            }
            out.push(e);
        }
        i += 1;
    }
    out
}

// ---------------------------------------------------------------------------
// Reading expressions
// ---------------------------------------------------------------------------

/// How a reading that may find no token where it looks ended, against
/// what [`spec_parse_expression`] says of it.
pub open spec fn expression_outcome(s: Option<(Seq<ExprView>, bool, nat)>, r: Option<(Vec<Expr>, bool)>, start: int, end: int) -> bool {
    match s {
        None => r is None,
        Some((e, b, a)) => r matches Some((v, b2)) && exprs_view(v@) == e && b2 == b && end == start
            + a,
    }
}

pub open spec fn arguments_outcome(s: Option<(Seq<OpsView>, nat)>, r: Option<Vec<ExprOperations>>, start: int, end: int) -> bool {
    match s {
        None => r is None,
        Some((args, a)) => r matches Some(v) && opss_view(v@) == args && end == start + a,
    }
}

fn closes(t: &Tokens, square: bool) -> (r: bool)
    ensures
        r == is_closing(t@, square),
{
    match t {
        Tokens::CloseSquaredBrackets => square,
        Tokens::CloseParenthesis => !square,
        _ => false,
    }
}

/// Reads the token at `index` (which exists) as a part of an expression,
/// adding to `out`: `Some((true, _))` when the expression ends there,
/// `Some((false, coming))` when it may go on; `None` where the reading
/// would look at a token past the end.
fn expression_step(program_tokens: &Vec<Tokens>, index: &mut usize, out: &mut Vec<Expr>, is_bool: &mut bool) -> (r: Option<(bool, ComingFrom)>)
    requires
        *old(index) < program_tokens@.len(),
        fits(program_tokens@.len() as int, *old(index) as int, 16),
    ensures
        match spec_expression_step(tokens_view(program_tokens@), *old(index) as int, exprs_view(old(out)@), *old(is_bool)) {
            None => r is None,
            Some(ExprStep::Stop(o, b, a)) => r == Some((true, ComingFrom::Elsewhere))
                && exprs_view(final(out)@) == o && *final(is_bool) == b && *final(index) == *old(index) + a,
            Some(ExprStep::Next(o, b, a, c)) => r == Some((false, c))
                && exprs_view(final(out)@) == o && *final(is_bool) == b && *final(index) == *old(index) + a,
        },
        r is Some ==> phi(program_tokens@.len() as int, *final(index) as int) <= phi(
            program_tokens@.len() as int,
            *old(index) as int,
        ) + 2,
        final(out)@.len() <= old(out)@.len() + 2,
    decreases remaining(program_tokens@.len() as int, *old(index) as int), 2nat,
{
    let current = &program_tokens[*index];
    proof {
        assert(tokens_view(program_tokens@)[*index as int] == current@);
    }
    match current {
        Tokens::Add => {
            proof { lemma_exprs_view_push(out@, Expr::Add); }
            out.push(Expr::Add);
        },
        Tokens::Subtract => {
            proof { lemma_exprs_view_push(out@, Expr::Subtract); }
            out.push(Expr::Subtract);
        },
        Tokens::Multiply => {
            proof { lemma_exprs_view_push(out@, Expr::Multiply); }
            out.push(Expr::Multiply);
        },
        Tokens::Divide => {
            proof { lemma_exprs_view_push(out@, Expr::Divide); }
            out.push(Expr::Divide);
        },
        Tokens::Mod => {
            proof { lemma_exprs_view_push(out@, Expr::Mod); }
            out.push(Expr::Mod);
        },
        Tokens::EqualsTo => {
            *is_bool = true;
            proof { lemma_exprs_view_push(out@, Expr::Equals); }
            out.push(Expr::Equals);
        },
        Tokens::IsDifferent => {
            *is_bool = true;
            proof { lemma_exprs_view_push(out@, Expr::Different); }
            out.push(Expr::Different);
        },
        Tokens::BiggerThan => {
            *is_bool = true;
            proof { lemma_exprs_view_push(out@, Expr::BiggerThan); }
            out.push(Expr::BiggerThan);
        },
        Tokens::BiggerThanOrEqual => {
            *is_bool = true;
            proof { lemma_exprs_view_push(out@, Expr::BiggerOrEqual); }
            out.push(Expr::BiggerOrEqual);
        },
        Tokens::SmallerThan => {
            *is_bool = true;
            proof { lemma_exprs_view_push(out@, Expr::SmallerThan); }
            out.push(Expr::SmallerThan);
        },
        Tokens::SmallerOrEqual => {
            *is_bool = true;
            proof { lemma_exprs_view_push(out@, Expr::SmallerOrEqual); }
            out.push(Expr::SmallerOrEqual);
        },
        Tokens::NotBool => {
            *is_bool = true;
            proof { lemma_exprs_view_push(out@, Expr::NOT); }
            out.push(Expr::NOT);
        },
        Tokens::OrBool => {
            *is_bool = true;
            proof { lemma_exprs_view_push(out@, Expr::OR); }
            out.push(Expr::OR);
        },
        Tokens::AndBool => {
            *is_bool = true;
            proof { lemma_exprs_view_push(out@, Expr::AND); }
            out.push(Expr::AND);
        },
        Tokens::OpenParenthesis => {
            *index += 1;
            match try_parse_expression(program_tokens, index) {
                None => return None,
                Some((operations, operation_bool)) => {
                    let e = Expr::Operations(ExprOperations { instructions: operations, is_bool: operation_bool });
                    proof { lemma_exprs_view_push(out@, e); }
                    out.push(e);
                },
            }
            return Some((false, ComingFrom::Parenthesis));
        },
        Tokens::String(v) => {
            let e = Expr::String(v.clone());
            proof { lemma_exprs_view_push(out@, e); }
            out.push(e);
        },
        Tokens::Statement(variable_name) => {
            return parse_statement_expr(variable_name, program_tokens, index, out);
        },
        Tokens::OpenSquaredBrackets => {
            *index += 1;
            match try_parse_arguments(program_tokens, index, true) {
                None => return None,
                Some(arguments) => {
                    let e = Expr::Array(arguments);
                    proof { lemma_exprs_view_push(out@, e); }
                    out.push(e);
                },
            }
            return Some((false, ComingFrom::SquaredBrackets));
        },
        _ => {
            return Some((true, ComingFrom::Elsewhere));
        },
    }
    Some((false, ComingFrom::Elsewhere))
}

/// Reads an expression, or `None` where the reading would look at a token
/// past the end.
pub(crate) fn try_parse_expression(program_tokens: &Vec<Tokens>, index: &mut usize) -> (r: Option<(Vec<Expr>, bool)>)
    requires
        fits(program_tokens@.len() as int, *old(index) as int, 16),
    ensures
        expression_outcome(
            spec_parse_expression(tokens_view(program_tokens@), *old(index) as int),
            r,
            *old(index) as int,
            *final(index) as int,
        ),
        r is Some ==> phi(program_tokens@.len() as int, *final(index) as int) <= phi(
            program_tokens@.len() as int,
            *old(index) as int,
        ) + 3,
    decreases remaining(program_tokens@.len() as int, *old(index) as int), 4nat,
{
    let ghost tv = tokens_view(program_tokens@);
    let ghost n = program_tokens@.len() as int;
    let ghost i0 = *index as int;
    let mut out: Vec<Expr> = Vec::new();
    let mut is_bool = false;
    proof {
        assert(exprs_view(out@) =~= Seq::<ExprView>::empty());
    }
    while *index < program_tokens.len()
        invariant
            tv == tokens_view(program_tokens@),
            n == program_tokens@.len(),
            i0 == *old(index),
            fits(n, i0, 16),
            i0 <= *index,
            *index < n ==> phi(n, *index as int) <= phi(n, i0),
            phi(n, *index as int) <= phi(n, i0) + 3,
            *index < n ==> out@.len() <= 2 * (*index - i0),
            out@.len() <= 2 * remaining(n, i0) + 2,
            spec_expression_loop(tv, i0, *index as int, exprs_view(out@), is_bool)
                == spec_expression_loop(tv, i0, i0, Seq::empty(), false),
        decreases remaining(n, *index as int),
    {
        let ghost p = *index as int;
        match expression_step(program_tokens, index, &mut out, &mut is_bool) {
            None => return None,
            Some((true, _)) => {
                proof { lemma_exprs_view_len(out@); }
                return Some((normalize_parse_expression(&out), is_bool));
            },
            Some((false, coming_from)) => {
                if *index < program_tokens.len() {
                    let ends = match &program_tokens[*index] {
                        Tokens::SemmiColon | Tokens::Comma | Tokens::CloseCurlyBrackets => true,
                        Tokens::CloseSquaredBrackets => !matches!(coming_from, ComingFrom::SquaredBrackets),
                        Tokens::CloseParenthesis => !matches!(coming_from, ComingFrom::Parenthesis),
                        _ => false,
                    };
                    proof {
                        assert(tv[*index as int] == program_tokens@[*index as int]@);
                        assert(ends == ends_expression(tv, *index as int, coming_from));
                    }
                    if ends {
                        proof { lemma_exprs_view_len(out@); }
                        return Some((normalize_parse_expression(&out), is_bool));
                    }
                }
                *index += 1;
            },
        }
    }
    proof { lemma_exprs_view_len(out@); }
    Some((normalize_parse_expression(&out), is_bool))
}

/// Reads arguments up to `)` (`square` false) or array items up to `]`
/// (`square` true).
fn try_parse_arguments(program_tokens: &Vec<Tokens>, index: &mut usize, square: bool) -> (r: Option<Vec<ExprOperations>>)
    requires
        fits(program_tokens@.len() as int, *old(index) as int, 16),
    ensures
        arguments_outcome(
            spec_argument_loop(tokens_view(program_tokens@), *old(index) as int, *old(index) as int, Seq::empty(), square),
            r,
            *old(index) as int,
            *final(index) as int,
        ),
        r is Some ==> phi(program_tokens@.len() as int, *final(index) as int) <= phi(
            program_tokens@.len() as int,
            *old(index) as int,
        ),
    decreases remaining(program_tokens@.len() as int, *old(index) as int), 5nat,
{
    let ghost tv = tokens_view(program_tokens@);
    let ghost n = program_tokens@.len() as int;
    let ghost i0 = *index as int;
    let mut arguments: Vec<ExprOperations> = Vec::new();
    proof {
        assert(opss_view(arguments@) =~= Seq::<OpsView>::empty());
    }
    while *index < program_tokens.len()
        invariant
            tv == tokens_view(program_tokens@),
            n == program_tokens@.len(),
            i0 == *old(index),
            fits(n, i0, 16),
            i0 <= *index,
            phi(n, *index as int) <= phi(n, i0),
            spec_argument_loop(tv, i0, *index as int, opss_view(arguments@), square)
                == spec_argument_loop(tv, i0, i0, Seq::empty(), square),
        decreases remaining(n, *index as int),
    {
        if closes(&program_tokens[*index], square) {
            return Some(arguments);
        }
        match try_parse_expression(program_tokens, index) {
            None => return None,
            Some((arg, is_bool)) => {
                let e = ExprOperations { instructions: arg, is_bool: is_bool };
                proof { lemma_opss_view_push(arguments@, e); }
                arguments.push(e);
            },
        }
        if *index >= program_tokens.len() {
            // the token after the argument is needed, and there is none
            return None;
        }
        if closes(&program_tokens[*index], square) {
            return Some(arguments);
        }
        *index += 1;
    }
    Some(arguments)
}

/// Reads the expression part that starts with the word `variable_name`
/// at `index`, adding it to `out`: whether the expression ends there and
/// what the part ended with; `None` where a token past the end would be needed.
fn parse_statement_expr(variable_name: &String, program_tokens: &Vec<Tokens>, index: &mut usize, out: &mut Vec<Expr>) -> (r: Option<(bool, ComingFrom)>)
    requires
        fits(program_tokens@.len() as int, *old(index) as int, 16),
    ensures
        match spec_statement_expr(variable_name@, tokens_view(program_tokens@), *old(index) as int, exprs_view(old(out)@)) {
            None => r is None,
            Some((o, should_break, coming, a)) => r == Some((should_break, coming)) && exprs_view(final(out)@) == o
                && *final(index) == *old(index) + a && phi(program_tokens@.len() as int, *final(index) as int)
                <= phi(program_tokens@.len() as int, *old(index) as int) + 2,
        },
        final(out)@.len() <= old(out)@.len() + 2,
    decreases remaining(program_tokens@.len() as int, *old(index) as int), 1nat,
{
    let ghost tv = tokens_view(program_tokens@);
    if same_text(variable_name.as_str(), "read") {
        proof { lemma_exprs_view_push(out@, Expr::Read); }
        out.push(Expr::Read);
    } else if same_text(variable_name.as_str(), "internal") {
        if *index + 1 >= program_tokens.len() {
            return Some((true, ComingFrom::Elsewhere));
        }
        *index += 1;
        if let Tokens::String(func_name) = &program_tokens[*index] {
            *index += 1;
            if *index >= program_tokens.len() {
                // the token after the name is needed, and there is none
                return None;
            }
            match &program_tokens[*index] {
                Tokens::OpenParenthesis => {
                    match try_parse_arguments(program_tokens, index, false) {
                        None => return None,
                        Some(arguments) => {
                            let e = Expr::Internal(FuncCall { name: func_name.clone(), arguments: arguments });
                            proof { lemma_exprs_view_push(out@, e); }
                            out.push(e);
                        },
                    }
                },
                _ => return Some((true, ComingFrom::Elsewhere)),
            }
        }
    } else {
        let bytes = variable_name.as_str().as_bytes();
        proof {
            lemma_encode_utf8_empty(variable_name@);
        }
        if bytes.len() == 0 {
            // an empty word has no first byte to classify
            return None;
        }
        let initial = bytes[0] as char;
        if initial >= '0' && '9' > initial {
            let e = Expr::Number(variable_name.clone());
            proof { lemma_exprs_view_push(out@, e); }
            out.push(e);
        } else {
            if *index + 1 >= program_tokens.len() {
                let e = Expr::VarCall(VarCalling { name: variable_name.clone() });
                proof { lemma_exprs_view_push(out@, e); }
                out.push(e);
                return Some((true, ComingFrom::Elsewhere));
            }
            let next = &program_tokens[*index + 1];
            match next {
                Tokens::OpenParenthesis => {
                    *index += 2;
                    match try_parse_arguments(program_tokens, index, false) {
                        None => return None,
                        Some(arguments) => {
                            let e = Expr::FuncCall(FuncCall { name: variable_name.clone(), arguments: arguments });
                            proof { lemma_exprs_view_push(out@, e); }
                            out.push(e);
                        },
                    }
                    return Some((false, ComingFrom::Parenthesis));
                },
                Tokens::OpenSquaredBrackets => {
                    *index += 2;
                    let (at, is_bool) = match try_parse_expression(program_tokens, index) {
                        None => return None,
                        Some(p) => p,
                    };
                    let has_next = *index + 2 < program_tokens.len();
                    if !has_next {
                        let e = Expr::ArrayCall(ArrayCall {
                            name: variable_name.clone(),
                            at: ExprOperations { instructions: copy_exprs(&at), is_bool: is_bool },
                        });
                        proof { lemma_exprs_view_push(out@, e); }
                        out.push(e);
                    }
                    let next = *index + 1;
                    if next >= program_tokens.len() {
                        // the token after the index is needed, and there is none
                        return None;
                    }
                    match &program_tokens[next] {
                        Tokens::Equals => {
                            *index += 2;
                            let (new_val, new_val_bool) = match try_parse_expression(program_tokens, index) {
                                None => return None,
                                Some(p) => p,
                            };
                            let e = Expr::ArrayCallMod(ArrayCallMod {
                                name: variable_name.clone(),
                                at: ExprOperations { instructions: at, is_bool: is_bool },
                                new_value: ExprOperations { instructions: new_val, is_bool: new_val_bool },
                            });
                            proof { lemma_exprs_view_push(out@, e); }
                            out.push(e);
                            return Some((true, ComingFrom::Elsewhere));
                        },
                        _ => {
                            let e = Expr::ArrayCall(ArrayCall {
                                name: variable_name.clone(),
                                at: ExprOperations { instructions: at, is_bool: is_bool },
                            });
                            proof { lemma_exprs_view_push(out@, e); }
                            out.push(e);
                            return Some((false, ComingFrom::SquaredBrackets));
                        },
                    }
                },
                Tokens::AddTo | Tokens::SubtractTo | Tokens::MultiplyTo | Tokens::DivideTo | Tokens::ModTo => {
                    *index += 2;
                    let (operations, operation_bool) = match try_parse_expression(program_tokens, index) {
                        None => return None,
                        Some(p) => p,
                    };
                    let value = ModifyingOperation {
                        name: variable_name.clone(),
                        value: ExprOperations { instructions: operations, is_bool: operation_bool },
                    };
                    let e = match next {
                        Tokens::AddTo => Expr::AddTo(value),
                        Tokens::SubtractTo => Expr::SubtractTo(value),
                        Tokens::MultiplyTo => Expr::MultiplyTo(value),
                        Tokens::DivideTo => Expr::DivideTo(value),
                        _ => Expr::ModTo(value),
                    };
                    proof { lemma_exprs_view_push(out@, e); }
                    out.push(e);
                    return Some((true, ComingFrom::Elsewhere));
                },
                Tokens::Increment => {
                    *index += 1;
                    let e = Expr::Increment(VarCalling { name: variable_name.clone() });
                    proof { lemma_exprs_view_push(out@, e); }
                    out.push(e);
                },
                Tokens::Decrement => {
                    *index += 1;
                    let e = Expr::Decrement(VarCalling { name: variable_name.clone() });
                    proof { lemma_exprs_view_push(out@, e); }
                    out.push(e);
                },
                Tokens::Equals => {
                    *index += 2;
                    let (expr_out, is_bool) = match try_parse_expression(program_tokens, index) {
                        None => return None,
                        Some(p) => p,
                    };
                    let e = Expr::VarAssign(VarAssign {
                        name: variable_name.clone(),
                        value: ExprOperations { instructions: expr_out, is_bool: is_bool },
                    });
                    proof { lemma_exprs_view_push(out@, e); }
                    out.push(e);
                },
                _ => {
                    let e = Expr::VarCall(VarCalling { name: variable_name.clone() });
                    proof { lemma_exprs_view_push(out@, e); }
                    out.push(e);
                },
            }
        }
    }
    Some((false, ComingFrom::Elsewhere))
}

/// No vector of tokens is this long: a token takes at least 24 bytes and no
/// allocation exceeds `isize::MAX` bytes.
pub open spec fn within_token_limit(n: int) -> bool {
    n <= usize::MAX / 32
}

proof fn lemma_fits_below_end(n: int, i: int)
    requires
        within_token_limit(n),
        0 <= i < n,
    ensures
        fits(n, i, 32),
{
}

/// Reads an expression from `index`: its parts, normalized, and whether it
/// is a condition (it holds a comparison or a boolean operator); `index`
/// moves to the token that ended the expression. `None` where the reading
/// would look past the last token (see [`spec_parse_expression`]).
pub fn parse_expression_checked(program_tokens: &Vec<Tokens>, index: &mut usize) -> (r: Option<(Vec<Expr>, bool)>)
    requires
        within_token_limit(program_tokens@.len() as int),
    ensures
        match spec_parse_expression(tokens_view(program_tokens@), *old(index) as int) {
            None => r is None,
            Some((e, b, a)) => r matches Some(p) && exprs_view(p.0@) == e && p.1 == b && *final(index)
                == *old(index) + a,
        },
{
    if *index >= program_tokens.len() {
        let r: (Vec<Expr>, bool) = (Vec::new(), false);
        proof {
            assert(exprs_view(r.0@) =~= Seq::<ExprView>::empty());
            assert(spec_normalize(Seq::<ExprView>::empty()) == Seq::<ExprView>::empty());
        }
        return Some(r);
    }
    proof {
        lemma_fits_below_end(program_tokens@.len() as int, *index as int);
    }
    try_parse_expression(program_tokens, index)
}

/// [`parse_expression_checked`] on tokens where the reading stays inside them.
pub fn parse_expression(program_tokens: &Vec<Tokens>, index: &mut usize) -> (r: (Vec<Expr>, bool))
    requires
        within_token_limit(program_tokens@.len() as int),
        spec_parse_expression(tokens_view(program_tokens@), *old(index) as int) is Some,
    ensures
        spec_parse_expression(tokens_view(program_tokens@), *old(index) as int) matches Some(
            (e, b, a),
        ) && exprs_view(r.0@) == e && r.1 == b && *final(index) == *old(index) + a,
{
    match parse_expression_checked(program_tokens, index) {
        Some(r) => r,
        // excluded by the precondition
        None => (Vec::new(), false),
    }
}

/// Reads the arguments of a call (`square` false) or the items of an array
/// (`square` true) from `index` up to the `)` or `]` that closes them;
/// `index` moves to it. `None` where the reading would look past the last
/// token.
fn arguments_checked(program_tokens: &Vec<Tokens>, index: &mut usize, square: bool) -> (r: Option<Vec<ExprOperations>>)
    requires
        within_token_limit(program_tokens@.len() as int),
    ensures
        match spec_argument_loop(tokens_view(program_tokens@), *old(index) as int, *old(index) as int, Seq::empty(), square) {
            None => r is None,
            Some((args, a)) => r matches Some(v) && opss_view(v@) == args && *final(index) == *old(index) + a,
        },
{
    if *index >= program_tokens.len() {
        let r: Vec<ExprOperations> = Vec::new();
        proof {
            assert(opss_view(r@) =~= Seq::<OpsView>::empty());
        }
        return Some(r);
    }
    proof {
        lemma_fits_below_end(program_tokens@.len() as int, *index as int);
    }
    try_parse_arguments(program_tokens, index, square)
}

/// Reads the arguments of a call from `index` up to the `)` that closes
/// them; `index` moves to that `)`. `None` where the reading would look past
/// the last token.
pub fn parse_argument_functions_checked(program_tokens: &Vec<Tokens>, index: &mut usize) -> (r: Option<Vec<ExprOperations>>)
    requires
        within_token_limit(program_tokens@.len() as int),
    ensures
        match spec_argument_loop(tokens_view(program_tokens@), *old(index) as int, *old(index) as int, Seq::empty(), false) {
            None => r is None,
            Some((args, a)) => r matches Some(v) && opss_view(v@) == args && *final(index) == *old(index) + a,
        },
{
    arguments_checked(program_tokens, index, false)
}

/// [`parse_argument_functions_checked`] on tokens where the reading stays
/// inside them.
pub fn parse_argument_functions(program_tokens: &Vec<Tokens>, index: &mut usize) -> (r: Vec<ExprOperations>)
    requires
        within_token_limit(program_tokens@.len() as int),
        spec_argument_loop(tokens_view(program_tokens@), *old(index) as int, *old(index) as int, Seq::empty(), false) is Some,
    ensures
        spec_argument_loop(tokens_view(program_tokens@), *old(index) as int, *old(index) as int, Seq::empty(), false)
            matches Some((args, a)) && opss_view(r@) == args && *final(index) == *old(index) + a,
{
    match arguments_checked(program_tokens, index, false) {
        Some(r) => r,
        // excluded by the precondition
        None => Vec::new(),
    }
}

/// Reads the items of an array from `index` up to the `]` that closes
/// them; `index` moves to that `]`. `None` where the reading would look past
/// the last token.
pub fn parse_argument_array_checked(program_tokens: &Vec<Tokens>, index: &mut usize) -> (r: Option<Vec<ExprOperations>>)
    requires
        within_token_limit(program_tokens@.len() as int),
    ensures
        match spec_argument_loop(tokens_view(program_tokens@), *old(index) as int, *old(index) as int, Seq::empty(), true) {
            None => r is None,
            Some((args, a)) => r matches Some(v) && opss_view(v@) == args && *final(index) == *old(index) + a,
        },
{
    arguments_checked(program_tokens, index, true)
}

/// [`parse_argument_array_checked`] on tokens where the reading stays inside
/// them.
pub fn parse_argument_array(program_tokens: &Vec<Tokens>, index: &mut usize) -> (r: Vec<ExprOperations>)
    requires
        within_token_limit(program_tokens@.len() as int),
        spec_argument_loop(tokens_view(program_tokens@), *old(index) as int, *old(index) as int, Seq::empty(), true) is Some,
    ensures
        spec_argument_loop(tokens_view(program_tokens@), *old(index) as int, *old(index) as int, Seq::empty(), true)
            matches Some((args, a)) && opss_view(r@) == args && *final(index) == *old(index) + a,
{
    match arguments_checked(program_tokens, index, true) {
        Some(r) => r,
        // excluded by the precondition
        None => Vec::new(),
    }
}

// ---------------------------------------------------------------------------
// Laws of normalizing
// ---------------------------------------------------------------------------

/// No value is directly followed by `*`, `/` or `%`.
pub open spec fn normalized(s: Seq<ExprView>) -> bool {
    forall|k: int| 0 <= k < s.len() - 1 ==> !(is_operand(#[trigger] s[k]) && is_multiplicative(s[k + 1]))
}

proof fn lemma_normalized_push(s: Seq<ExprView>, e: ExprView)
    requires
        normalized(s),
        s.len() > 0 && is_operand(s.last()) ==> !is_multiplicative(e),
    ensures
        normalized(s.push(e)),
{
    assert forall|k: int| 0 <= k < s.push(e).len() - 1 implies !(is_operand(#[trigger] s.push(e)[k])
        && is_multiplicative(s.push(e)[k + 1])) by {
        if k < s.len() - 1 {
            assert(s.push(e)[k] == s[k] && s.push(e)[k + 1] == s[k + 1]);
        } else {
            assert(s.push(e)[k] == s.last() && s.push(e)[k + 1] == e);
        }
    }
}

proof fn lemma_normalize_from_normalized(input: Seq<ExprView>, i: int, out: Seq<ExprView>)
    requires
        normalized(out),
        out.len() > 0 && is_operand(out.last()) ==> (0 <= i < input.len() ==> !is_multiplicative(input[i])),
    ensures
        normalized(spec_normalize_from(input, i, out)),
    decreases remaining(input.len() as int, i),
{
    if 0 <= i < input.len() {
        let cur = input[i];
        if is_operand(cur) && i + 1 >= input.len() {
            lemma_normalized_push(out, cur);
        } else if is_operand(cur) && is_multiplicative(input[i + 1]) {
            let (group, j) = spec_until_op(input, i, Seq::empty());
            lemma_until_op_advances(input, i, Seq::empty());
            let out1 = out.push(ExprView::Operations(ops(group, false)));
            lemma_normalized_push(out, ExprView::Operations(ops(group, false)));
            if j < input.len() {
                lemma_until_op_stops(input, i, Seq::empty());
                lemma_normalized_push(out1, input[j]);
                lemma_normalize_from_normalized(input, j + 1, out1.push(input[j]));
            } else {
                lemma_normalize_from_normalized(input, j + 1, out1);
            }
        } else {
            lemma_normalized_push(out, cur);
            lemma_normalize_from_normalized(input, i + 1, out.push(cur));
        }
    }
}

proof fn lemma_until_op_stops(input: Seq<ExprView>, i: int, acc: Seq<ExprView>)
    requires
        0 <= i,
    ensures
        ({
            let (g, j) = spec_until_op(input, i, acc);
            &&& i <= j
            &&& (j <= input.len() || j == i)
            &&& (0 <= j < input.len() ==> ends_group(input[j]))
            &&& (j <= input.len() ==> g == acc + input.subrange(i, j))
            &&& forall|k: int| i <= k < j ==> !ends_group(#[trigger] input[k])
        }),
    decreases input.len() - i,
{
    if !(i >= input.len() || ends_group(input[i])) {
        lemma_until_op_stops(input, i + 1, acc.push(input[i]));
        let (g, j) = spec_until_op(input, i + 1, acc.push(input[i]));
        assert(acc.push(input[i]) + input.subrange(i + 1, j) =~= acc + input.subrange(i, j));
    } else if i <= input.len() {
        assert(input.subrange(i, i) =~= Seq::<ExprView>::empty());
        assert(acc + Seq::<ExprView>::empty() =~= acc);
    }
}

proof fn lemma_normalize_keeps_normalized(s: Seq<ExprView>, i: int)
    requires
        normalized(s),
        0 <= i <= s.len(),
    ensures
        spec_normalize_from(s, i, s.take(i)) == s,
    decreases s.len() - i,
{
    if i < s.len() {
        let cur = s[i];
        assert(s.take(i).push(cur) =~= s.take(i + 1));
        if is_operand(cur) && i + 1 >= s.len() {
            assert(s.take(i + 1) =~= s);
        } else {
            assert(!(is_operand(s[i]) && is_multiplicative(s[i + 1])));
            lemma_normalize_keeps_normalized(s, i + 1);
        }
    } else {
        assert(s.take(i) =~= s);
    }
}

/// Normalizing leaves no value directly followed by `*`, `/` or `%`.
pub proof fn law_normalize_groups_every_product(input: Seq<ExprView>)
    ensures
        normalized(spec_normalize(input)),
{
    lemma_normalize_from_normalized(input, 0, Seq::empty());
}

/// Normalizing twice is normalizing once.
pub proof fn law_normalize_idempotent(input: Seq<ExprView>)
    ensures
        spec_normalize(spec_normalize(input)) == spec_normalize(input),
{
    let s = spec_normalize(input);
    law_normalize_groups_every_product(input);
    lemma_normalize_keeps_normalized(s, 0);
    assert(s.take(0) =~= Seq::<ExprView>::empty());
}

/// Normalizing changes nothing in a sequence where no value is directly
/// followed by `*`, `/` or `%`; in particular in one that holds none of
/// `*`, `/`, `%`.
pub proof fn law_normalize_keeps_normalized(input: Seq<ExprView>)
    ensures
        normalized(input) ==> spec_normalize(input) == input,
        (forall|k: int| 0 <= k < input.len() ==> !is_multiplicative(#[trigger] input[k])) ==> spec_normalize(input)
            == input,
{
    if forall|k: int| 0 <= k < input.len() ==> !is_multiplicative(#[trigger] input[k]) {
        assert forall|k: int| 0 <= k < input.len() - 1 implies !(is_operand(#[trigger] input[k]) && is_multiplicative(
            input[k + 1],
        )) by {
            assert(!is_multiplicative(input[k + 1]));
        }
    }
    if normalized(input) {
        lemma_normalize_keeps_normalized(input, 0);
        assert(input.take(0) =~= Seq::<ExprView>::empty());
    }
}

/// The parts of an expression that the parser reads are normalized.
pub proof fn law_parsed_expressions_are_normalized(t: Seq<TokenView>, i: int)
    ensures
        spec_parse_expression(t, i) matches Some((e, _, _)) ==> normalized(e) && spec_normalize(e) == e,
{
    if let Some((e, _, _)) = spec_parse_expression(t, i) {
        let (raw, _, _) = spec_expression_loop(t, i, i, Seq::empty(), false)->0;
        law_normalize_idempotent(raw);
        law_normalize_groups_every_product(raw);
    }
}

/// The parts that [`continue_until_another_op`] collects are exactly those
/// before the first operator that ends a group (`+`, `-`, a comparison or
/// a boolean operator), where it stops, or the end.
pub proof fn law_group_ends_at_first_ending_operator(input: Seq<ExprView>, i: int)
    requires
        0 <= i <= input.len(),
    ensures
        ({
            let (g, j) = spec_until_op(input, i, Seq::empty());
            &&& i <= j <= input.len()
            &&& g == input.subrange(i, j)
            &&& (j == input.len() || ends_group(input[j]))
            &&& forall|k: int| i <= k < j ==> !ends_group(#[trigger] input[k])
        }),
{
    lemma_until_op_stops(input, i, Seq::empty());
    let (g, j) = spec_until_op(input, i, Seq::empty());
    assert(Seq::<ExprView>::empty() + input.subrange(i, j) =~= input.subrange(i, j));
}

} // verus!
