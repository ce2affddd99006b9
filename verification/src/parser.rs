//! Statements: from tokens to the statements of a program.
pub mod expression;
pub mod laws;

use vstd::prelude::*;
use crate::ast::{
    Elif, ElifView, Expr, ExprOperations, ExprView, ForLoop, ForView, FuncAssign, If, IfView, OpsView,
    Stmt, StmtView, WhileLoop, elifs_view, exprs_view, lemma_elifs_view_push, lemma_exprs_view_push,
    lemma_names_view_push, lemma_stmts_view_push, names_view, stmts_view,
};
use crate::lexer::tokens::{TokenView, Tokens, tokens_view};
use crate::parser::expression::{
    fits, is_symbol, ops, phi, remaining, spec_parse_expression, try_parse_expression,
    within_token_limit,
};
use crate::text::same_text;

verus! {

// ---------------------------------------------------------------------------
// What reading statements gives
// ---------------------------------------------------------------------------

/// The statement that a bare expression makes.
pub open spec fn expression_statement(e: Seq<ExprView>, is_bool: bool) -> StmtView {
    StmtView::Expression(ExprView::Operations(ops(e, is_bool)))
}

/// Reading statements from position `i` on, after `out`, up to a `}` or the
/// end; the count is how far the reading moved on from `start`. `None`
/// where the reading looks at a token past the end or meets an empty word.
pub open spec fn spec_parse_from(t: Seq<TokenView>, start: int, i: int, out: Seq<StmtView>) -> Option<(Seq<StmtView>, nat)>
    decreases remaining(t.len() as int, i), 8nat,
{
    if !(0 <= i < t.len()) {
        Some((out, (i - start) as nat))
    } else if is_symbol(t[i], Tokens::CloseCurlyBrackets) {
        Some((out, (i - start) as nat))
    } else {
        let cur = t[i];
        // the statements after this token's, and how far the reading moved on
        let next: Option<(Seq<StmtView>, nat)> = if is_symbol(cur, Tokens::OpenCurlyBrackets) {
            match spec_parse_from(t, i + 1, i + 1, Seq::empty()) {
                Some((body, a)) => Some((out.push(StmtView::Block(body)), 1 + a)),
                None => None,
            }
        } else if cur is Text || is_symbol(cur, Tokens::OpenParenthesis) {
            match spec_parse_expression(t, i) {
                Some((e, b, a)) => Some((out.push(expression_statement(e, b)), a)),
                None => None,
            }
        } else if cur is Statement {
            spec_handle_statement(cur->Statement_0, t, i, out)
        } else {
            Some((out, 0))
        };
        match next {
            Some((out1, a)) => spec_parse_from(t, start, i + a + 1, out1),
            None => None,
        }
    }
}

/// Reading the statements of a program from position `i`.
pub open spec fn spec_parse(t: Seq<TokenView>, i: int) -> Option<(Seq<StmtView>, nat)> {
    spec_parse_from(t, i, i, Seq::empty())
}

/// A statement that starts with the word `w` at position `i`, added to
/// `out`, and how far the reading moved on.
pub open spec fn spec_handle_statement(w: Seq<char>, t: Seq<TokenView>, i: int, out: Seq<StmtView>) -> Option<(Seq<StmtView>, nat)>
    decreases remaining(t.len() as int, i), 7nat,
{
    if !(0 <= i < t.len()) {
        None
    } else if w == "if"@ {
        spec_parse_if(t, i, out)
    } else if w == "for"@ {
        match spec_parse_for(t, i + 2, out) {
            Some((o, a)) => Some((o, 2 + a)),
            None => None,
        }
    } else if w == "while"@ {
        match spec_parse_while(t, i + 2, out) {
            Some((o, a)) => Some((o, 2 + a)),
            None => None,
        }
    } else if w == "define"@ {
        match spec_parse_def(t, i + 1, out) {
            Some((o, a)) => Some((o, 1 + a)),
            None => None,
        }
    } else if w == "break"@ {
        Some((out.push(StmtView::Break), 0))
    } else if w == "continue"@ {
        Some((out.push(StmtView::Continue), 0))
    } else if w == "return"@ {
        if i + 1 >= t.len() {
            Some((out.push(StmtView::Return(ExprView::Operations(ops(Seq::empty(), false)))), 0))
        } else {
            match spec_parse_expression(t, i + 1) {
                Some((e, b, a)) => Some((out.push(StmtView::Return(ExprView::Operations(ops(e, b)))), 1 + a)),
                None => None,
            }
        }
    } else if w == "print"@ {
        if i + 1 >= t.len() {
            Some((out.push(StmtView::Print(ops(Seq::empty(), false))), 0))
        } else {
            match spec_parse_expression(t, i + 1) {
                Some((e, b, a)) => Some((out.push(StmtView::Print(ops(e, b))), a)),
                None => None,
            }
        }
    } else if w == ""@ {
        None
    } else if i + 1 >= t.len() {
        Some((out.push(expression_statement(Seq::empty(), false)), 0))
    } else {
        match spec_parse_expression(t, i) {
            Some((e, b, a)) => Some((out.push(expression_statement(e, b)), a)),
            None => None,
        }
    }
}

/// `if (condition) { ... }` followed by any `elif (condition) { ... }` and an
/// `else { ... }`, from the word `if` at position `i`.
pub open spec fn spec_parse_if(t: Seq<TokenView>, i: int, out: Seq<StmtView>) -> Option<(Seq<StmtView>, nat)>
    decreases remaining(t.len() as int, i), 6nat,
{
    if !(0 <= i) || i + 2 >= t.len() {
        Some((out, 0))
    } else {
        match spec_parse_expression(t, i + 2) {
            Some((cond, cond_bool, a)) => {
                let j = i + 2 + a;
                if j + 2 >= t.len() {
                    Some((out, (j - i) as nat))
                } else {
                    match spec_parse_from(t, j + 2, j + 2, Seq::empty()) {
                        Some((if_then, a2)) => {
                            let k = j + 2 + a2;
                            if k + 1 >= t.len() {
                                Some(
                                    (
                                        out.push(
                                            StmtView::If(
                                                IfView {
                                                    condition: cond,
                                                    condition_bool: cond_bool,
                                                    if_then,
                                                    elif_then: Seq::empty(),
                                                    else_then: Seq::empty(),
                                                },
                                            ),
                                        ),
                                        (k - i) as nat,
                                    ),
                                )
                            } else {
                                match spec_if_chain(t, k + 1, k + 1, Seq::empty(), Seq::empty()) {
                                    Some((elifs, els, a3)) => Some(
                                        (
                                            out.push(
                                                StmtView::If(
                                                    IfView {
                                                        condition: cond,
                                                        condition_bool: cond_bool,
                                                        if_then,
                                                        elif_then: elifs,
                                                        else_then: els,
                                                    },
                                                ),
                                            ),
                                            (k + a3 - i) as nat,
                                        ),
                                    ),
                                    None => None,
                                }
                            }
                        },
                        None => None,
                    }
                }
            },
            None => None,
        }
    }
}

/// The `elif` and `else` branches from position `k` on, after `elifs` and
/// `els`; the count is how far the reading moved on from `start`.
pub open spec fn spec_if_chain(t: Seq<TokenView>, start: int, k: int, elifs: Seq<ElifView>, els: Seq<StmtView>) -> Option<(Seq<ElifView>, Seq<StmtView>, nat)>
    decreases remaining(t.len() as int, k), 6nat,
{
    if !(0 <= k < t.len()) || !(t[k] is Statement) {
        Some((elifs, els, (k - start) as nat))
    } else {
        let w = t[k]->Statement_0;
        if w == "else"@ {
            if k + 2 >= t.len() {
                Some((elifs, els, (k - start) as nat))
            } else {
                match spec_parse_from(t, k + 2, k + 2, Seq::empty()) {
                    Some((body, a)) => Some((elifs, body, (k + 2 + a + 1 - start) as nat)),
                    None => None,
                }
            }
        } else if w == "elif"@ {
            if k + 2 >= t.len() {
                Some((elifs, els, (k - start) as nat))
            } else {
                match spec_parse_expression(t, k + 2) {
                    Some((cond, cond_bool, a)) => {
                        let k1 = k + 2 + a;
                        if k1 + 2 >= t.len() {
                            Some((elifs, els, (k1 - start) as nat))
                        } else {
                            match spec_parse_from(t, k1 + 2, k1 + 2, Seq::empty()) {
                                Some((body, a2)) => {
                                    let k2 = k1 + 2 + a2;
                                    let elifs1 = elifs.push(
                                        ElifView { condition: cond, condition_bool: cond_bool, then_body: body },
                                    );
                                    spec_if_chain(t, start, k2 + 1, elifs1, els)
                                },
                                None => None,
                            }
                        }
                    },
                    None => None,
                }
            }
        } else {
            Some((elifs, els, (k - start) as nat))
        }
    }
}

/// The names of a function's parameters from position `i` up to `)`.
pub open spec fn spec_def_args(t: Seq<TokenView>, start: int, i: int, args: Seq<Seq<char>>) -> (Seq<Seq<char>>, nat)
    decreases remaining(t.len() as int, i),
{
    if !(0 <= i < t.len()) || is_symbol(t[i], Tokens::CloseParenthesis) {
        (args, (i - start) as nat)
    } else if t[i] is Statement {
        spec_def_args(t, start, i + 1, args.push(t[i]->Statement_0))
    } else {
        spec_def_args(t, start, i + 1, args)
    }
}

/// `define name(parameters) { body }`, from the name at position `i`.
pub open spec fn spec_parse_def(t: Seq<TokenView>, i: int, out: Seq<StmtView>) -> Option<(Seq<StmtView>, nat)>
    decreases remaining(t.len() as int, i), 6nat,
{
    if !(0 <= i < t.len()) {
        None
    } else if t[i] is Statement {
        let (args, a) = spec_def_args(t, i + 2, i + 2, Seq::empty());
        let j = i + 2 + a;
        match spec_parse_from(t, j + 2, j + 2, Seq::empty()) {
            Some((body, a2)) => Some(
                (out.push(StmtView::FuncAssign(t[i]->Statement_0, args, body)), (j + 2 + a2 - i) as nat),
            ),
            None => None,
        }
    } else {
        Some((out, 0))
    }
}

pub open spec fn ends_clause(t: TokenView) -> bool {
    is_symbol(t, Tokens::SemmiColon) || is_symbol(t, Tokens::CloseParenthesis)
}

/// The expressions of the first or the last clause of a `for` header, from
/// position `i` up to `;` or `)`.
pub open spec fn spec_init_loop(t: Seq<TokenView>, start: int, i: int, out: Seq<ExprView>) -> Option<(Seq<ExprView>, nat)>
    decreases remaining(t.len() as int, i),
{
    if !(0 <= i < t.len()) || ends_clause(t[i]) {
        Some((out, (i - start) as nat))
    } else {
        match spec_parse_expression(t, i) {
            Some((e, b, a)) => {
                let j = i + a;
                let out1 = out.push(ExprView::Operations(ops(e, b)));
                if j >= t.len() {
                    None
                } else if ends_clause(t[j]) {
                    Some((out1, (j - start) as nat))
                } else {
                    spec_init_loop(t, start, j + 1, out1)
                }
            },
            None => None,
        }
    }
}

/// `for (init; condition; increment) { body }`, from the token after `(`.
pub open spec fn spec_parse_for(t: Seq<TokenView>, i: int, out: Seq<StmtView>) -> Option<(Seq<StmtView>, nat)>
    decreases remaining(t.len() as int, i), 9nat,
{
    if !(0 <= i) {
        None
    } else {
        match spec_init_loop(t, i, i, Seq::empty()) {
            Some((init, a1)) => {
                let j1 = i + a1 + 1;
                match spec_parse_expression(t, j1) {
                    Some((cond, cond_bool, a2)) => {
                        let j2 = j1 + a2 + 1;
                        match spec_init_loop(t, j2, j2, Seq::empty()) {
                            Some((increment, a3)) => {
                                let j3 = j2 + a3 + 2;
                                match spec_parse_from(t, j3, j3, Seq::empty()) {
                                    Some((body, a4)) => Some(
                                        (
                                            out.push(
                                                StmtView::ForLoop(
                                                    ForView {
                                                        init,
                                                        condition: cond,
                                                        is_bool: cond_bool,
                                                        increment,
                                                        body,
                                                    },
                                                ),
                                            ),
                                            (j3 + a4 - i) as nat,
                                        ),
                                    ),
                                    None => None,
                                }
                            },
                            None => None,
                        }
                    },
                    None => None,
                }
            },
            None => None,
        }
    }
}

/// `while (condition) { body }`, from the token after `(`.
pub open spec fn spec_parse_while(t: Seq<TokenView>, i: int, out: Seq<StmtView>) -> Option<(Seq<StmtView>, nat)>
    decreases remaining(t.len() as int, i), 9nat,
{
    if !(0 <= i) {
        None
    } else {
        match spec_parse_expression(t, i) {
            Some((cond, cond_bool, a)) => {
                let j = i + a + 2;
                match spec_parse_from(t, j, j, Seq::empty()) {
                    Some((body, a2)) => Some(
                        (out.push(StmtView::WhileLoop(cond, cond_bool, body)), (j + a2 - i) as nat),
                    ),
                    None => None,
                }
            },
            None => None,
        }
    }
}

// ---------------------------------------------------------------------------
// Reading statements
// ---------------------------------------------------------------------------

/// How a reading of statements that may find no token where it looks
/// ended, against what the specification says of it.
pub open spec fn statements_outcome(s: Option<(Seq<StmtView>, nat)>, r: Option<()>, out: Seq<Stmt>, start: int, end: int) -> bool {
    match s {
        None => r is None,
        Some((o, a)) => r is Some && stmts_view(out) == o && end == start + a,
    }
}

fn try_parse(tokens: &Vec<Tokens>, index: &mut usize) -> (r: Option<Vec<Stmt>>)
    requires
        fits(tokens@.len() as int, *old(index) as int, 20),
    ensures
        match spec_parse(tokens_view(tokens@), *old(index) as int) {
            None => r is None,
            Some((o, a)) => r matches Some(v) && stmts_view(v@) == o && *final(index) == *old(index) + a,
        },
        r is Some ==> phi(tokens@.len() as int, *final(index) as int) <= phi(tokens@.len() as int, *old(index) as int) + 4,
    decreases remaining(tokens@.len() as int, *old(index) as int), 8nat,
{
    let ghost tv = tokens_view(tokens@);
    let ghost n = tokens@.len() as int;
    let ghost i0 = *index as int;
    let mut out: Vec<Stmt> = Vec::new();
    proof {
        assert(stmts_view(out@) =~= Seq::<StmtView>::empty());
    }
    while *index < tokens.len()
        invariant
            tv == tokens_view(tokens@),
            n == tokens@.len(),
            i0 == *old(index),
            fits(n, i0, 20),
            i0 <= *index,
            *index < n ==> phi(n, *index as int) <= phi(n, i0),
            phi(n, *index as int) <= phi(n, i0) + 4,
            spec_parse_from(tv, i0, *index as int, stmts_view(out@)) == spec_parse(tv, i0),
        decreases remaining(n, *index as int),
    {
        let cell = &tokens[*index];
        proof {
            assert(tv[*index as int] == cell@);
        }
        match cell {
            Tokens::OpenCurlyBrackets => {
                *index += 1;
                match try_parse(tokens, index) {
                    None => return None,
                    Some(body) => {
                        let s = Stmt::Block(body);
                        proof { lemma_stmts_view_push(out@, s); }
                        out.push(s);
                    },
                }
            },
            Tokens::CloseCurlyBrackets => {
                return Some(out);
            },
            Tokens::String(_) | Tokens::OpenParenthesis => {
                match try_parse_expression(tokens, index) {
                    None => return None,
                    Some((operations, is_bool)) => {
                        let s = Stmt::Expression(Expr::Operations(ExprOperations { instructions: operations, is_bool: is_bool }));
                        proof { lemma_stmts_view_push(out@, s); }
                        out.push(s);
                    },
                }
            },
            Tokens::Statement(_) => {
                if handle_statement(cell, tokens, &mut out, index).is_none() {
                    return None;
                }
            },
            _ => {},
        }
        *index += 1;
    }
    Some(out)
}

/// A statement that starts with a word: a keyword's statement or an
/// expression. Any other token adds nothing and moves nothing.
fn handle_statement(cell: &Tokens, program_tokens: &Vec<Tokens>, out: &mut Vec<Stmt>, index: &mut usize) -> (r: Option<()>)
    requires
        *old(index) < program_tokens@.len(),
        fits(program_tokens@.len() as int, *old(index) as int, 20),
    ensures
        cell is Statement ==> statements_outcome(
            spec_handle_statement(cell@->Statement_0, tokens_view(program_tokens@), *old(index) as int, stmts_view(old(out)@)),
            r,
            final(out)@,
            *old(index) as int,
            *final(index) as int,
        ),
        !(cell is Statement) ==> r is Some && final(out)@ == old(out)@ && *final(index) == *old(index),
        r is Some ==> phi(program_tokens@.len() as int, *final(index) as int) <= phi(program_tokens@.len() as int, *old(index) as int) + 3,
    decreases remaining(program_tokens@.len() as int, *old(index) as int), 7nat,
{
    if let Tokens::Statement(current) = cell {
        let current = current.as_str();
        if same_text(current, "if") {
            return parse_if_statement(program_tokens, index, out);
        } else if same_text(current, "for") {
            *index += 2;
            return parse_for_loop(program_tokens, index, out);
        } else if same_text(current, "while") {
            *index += 2;
            return parse_while_loop(program_tokens, index, out);
        } else if same_text(current, "define") {
            *index += 1;
            return parse_def_function(program_tokens, index, out);
        } else if same_text(current, "break") {
            proof { lemma_stmts_view_push(out@, Stmt::Break); }
            out.push(Stmt::Break);
        } else if same_text(current, "continue") {
            proof { lemma_stmts_view_push(out@, Stmt::Continue); }
            out.push(Stmt::Continue);
        } else if same_text(current, "return") {
            let has_next = *index + 1 < program_tokens.len();
            if !has_next {
                let s = Stmt::Return(Expr::Operations(ExprOperations { instructions: Vec::new(), is_bool: false }));
                proof {
                    lemma_stmts_view_push(out@, s);
                    assert(exprs_view(Seq::<Expr>::empty()) =~= Seq::<ExprView>::empty());
                }
                out.push(s);
                return Some(());
            }
            *index += 1;
            match try_parse_expression(program_tokens, index) {
                None => return None,
                Some((returning, is_bool)) => {
                    let s = Stmt::Return(Expr::Operations(ExprOperations { instructions: returning, is_bool: is_bool }));
                    proof { lemma_stmts_view_push(out@, s); }
                    out.push(s);
                },
            }
        } else if same_text(current, "print") {
            let has_next = *index + 1 < program_tokens.len();
            if !has_next {
                let s = Stmt::Print(ExprOperations { instructions: Vec::new(), is_bool: false });
                proof {
                    lemma_stmts_view_push(out@, s);
                    assert(exprs_view(Seq::<Expr>::empty()) =~= Seq::<ExprView>::empty());
                }
                out.push(s);
                return Some(());
            }
            let mut i = *index + 1;
            match try_parse_expression(program_tokens, &mut i) {
                None => return None,
                Some((returning, is_bool)) => {
                    *index = i - 1;
                    let s = Stmt::Print(ExprOperations { instructions: returning, is_bool: is_bool });
                    proof { lemma_stmts_view_push(out@, s); }
                    out.push(s);
                },
            }
        } else if same_text(current, "") {
            // an empty word is refused
            return None;
        } else {
            let has_next = *index + 1 < program_tokens.len();
            if !has_next {
                let s = Stmt::Expression(Expr::Operations(ExprOperations { instructions: Vec::new(), is_bool: false }));
                proof {
                    lemma_stmts_view_push(out@, s);
                    assert(exprs_view(Seq::<Expr>::empty()) =~= Seq::<ExprView>::empty());
                }
                out.push(s);
                return Some(());
            }
            match try_parse_expression(program_tokens, index) {
                None => return None,
                Some((expr_out, is_bool)) => {
                    let s = Stmt::Expression(Expr::Operations(ExprOperations { instructions: expr_out, is_bool: is_bool }));
                    proof { lemma_stmts_view_push(out@, s); }
                    out.push(s);
                },
            }
        }
    }
    Some(())
}

#[verifier::rlimit(50)]
fn parse_if_statement(program_tokens: &Vec<Tokens>, index: &mut usize, out: &mut Vec<Stmt>) -> (r: Option<()>)
    requires
        *old(index) < program_tokens@.len(),
        fits(program_tokens@.len() as int, *old(index) as int, 20),
    ensures
        statements_outcome(
            spec_parse_if(tokens_view(program_tokens@), *old(index) as int, stmts_view(old(out)@)),
            r,
            final(out)@,
            *old(index) as int,
            *final(index) as int,
        ),
        r is Some ==> phi(program_tokens@.len() as int, *final(index) as int) <= phi(program_tokens@.len() as int, *old(index) as int) + 3,
    decreases remaining(program_tokens@.len() as int, *old(index) as int), 6nat,
{
    let ghost tv = tokens_view(program_tokens@);
    let ghost n = program_tokens@.len() as int;
    let ghost i0 = *index as int;
    if *index + 2 >= program_tokens.len() {
        return Some(());
    }
    *index += 2;
    let (if_expr, if_expr_bool) = match try_parse_expression(program_tokens, index) {
        None => return None,
        Some(p) => p,
    };
    if *index + 2 >= program_tokens.len() {
        return Some(());
    }
    *index += 2;
    let if_then = match try_parse(program_tokens, index) {
        None => return None,
        Some(body) => body,
    };
    if *index + 1 >= program_tokens.len() {
        let s = Stmt::If(If {
            condition_bool: if_expr_bool,
            condition: if_expr,
            if_then: if_then,
            else_then: Vec::new(),
            elif_then: Vec::new(),
        });
        proof {
            lemma_stmts_view_push(out@, s);
            assert(stmts_view(Seq::<Stmt>::empty()) =~= Seq::<StmtView>::empty());
            assert(elifs_view(Seq::<Elif>::empty()) =~= Seq::<ElifView>::empty());
        }
        out.push(s);
        return Some(());
    }
    let mut elif_then: Vec<Elif> = Vec::new();
    let mut else_then: Vec<Stmt> = Vec::new();
    let mut i = *index + 1;
    let ghost s0 = i as int;
    let ghost chain = spec_if_chain(tv, s0, s0, Seq::empty(), Seq::empty());
    let ghost ov = stmts_view(out@);
    let ghost cond = exprs_view(if_expr@);
    let ghost then_v = stmts_view(if_then@);
    proof {
        assert(stmts_view(else_then@) =~= Seq::<StmtView>::empty());
        assert(elifs_view(elif_then@) =~= Seq::<ElifView>::empty());
    }
    assert(chain is None ==> spec_parse_if(tv, i0, ov) is None);
    assert(chain matches Some((e, els, a)) ==> spec_parse_if(tv, i0, ov) == Some((
        ov.push(StmtView::If(IfView { condition: cond, condition_bool: if_expr_bool, if_then: then_v, elif_then: e, else_then: els })),
        (s0 - 1 + a - i0) as nat,
    )));
    while i < program_tokens.len()
        invariant_except_break
            spec_if_chain(tv, s0, i as int, elifs_view(elif_then@), stmts_view(else_then@)) == chain,
        invariant
            tv == tokens_view(program_tokens@),
            n == program_tokens@.len(),
            s0 <= i,
            s0 < n,
            i0 < s0,
            i0 == *old(index),
            phi(n, s0) <= phi(n, i0),
            fits(n, i0, 20),
            i < n ==> phi(n, i as int) <= phi(n, s0),
            phi(n, i as int) <= phi(n, s0) + 1,
            chain == spec_if_chain(tv, s0, s0, Seq::empty(), Seq::empty()),
            ov == stmts_view(out@),
            cond == exprs_view(if_expr@),
            then_v == stmts_view(if_then@),
            chain is None ==> spec_parse_if(tv, i0, ov) is None,
            chain matches Some((e, els, a)) ==> spec_parse_if(tv, i0, ov) == Some((
                ov.push(StmtView::If(IfView { condition: cond, condition_bool: if_expr_bool, if_then: then_v, elif_then: e, else_then: els })),
                (s0 - 1 + a - i0) as nat,
            )),
        ensures
            chain == Some((elifs_view(elif_then@), stmts_view(else_then@), (i - s0) as nat)),
        decreases remaining(n, i as int),
    {
        proof {
            assert(tv[i as int] == program_tokens@[i as int]@);
        }
        match &program_tokens[i] {
            Tokens::Statement(v) => {
                if same_text(v.as_str(), "else") {
                    if i + 2 >= program_tokens.len() {
                        break;
                    }
                    i += 2;
                    else_then = match try_parse(program_tokens, &mut i) {
                        None => return None,
                        Some(body) => body,
                    };
                    i += 1;
                    break;
                } else if same_text(v.as_str(), "elif") {
                    if i + 2 >= program_tokens.len() {
                        break;
                    }
                    i += 2;
                    let (elif_condition, is_bool) = match try_parse_expression(program_tokens, &mut i) {
                        None => return None,
                        Some(p) => p,
                    };
                    if i + 2 >= program_tokens.len() {
                        break;
                    }
                    i += 2;
                    let elif_body = match try_parse(program_tokens, &mut i) {
                        None => return None,
                        Some(body) => body,
                    };
                    let e = Elif { condition_bool: is_bool, condition: elif_condition, then_body: elif_body };
                    proof { lemma_elifs_view_push(elif_then@, e); }
                    elif_then.push(e);
                } else {
                    break;
                }
            },
            _ => break,
        }
        i += 1;
    }
    *index = i - 1;
    let s = Stmt::If(If {
        condition_bool: if_expr_bool,
        condition: if_expr,
        if_then: if_then,
        elif_then: elif_then,
        else_then: else_then,
    });
    proof { lemma_stmts_view_push(out@, s); }
    out.push(s);
    Some(())
}

fn parse_def_args_function(program_tokens: &Vec<Tokens>, index: &mut usize) -> (r: Vec<String>)
    ensures
        (names_view(r@), (*final(index) - *old(index)) as nat) == spec_def_args(
            tokens_view(program_tokens@),
            *old(index) as int,
            *old(index) as int,
            Seq::empty(),
        ),
        *old(index) <= *final(index),
        *final(index) <= *old(index) || *final(index) <= program_tokens@.len(),
{
    let ghost tv = tokens_view(program_tokens@);
    let ghost i0 = *index as int;
    let mut arguments: Vec<String> = Vec::new();
    proof {
        assert(names_view(arguments@) =~= Seq::<Seq<char>>::empty());
    }
    while *index < program_tokens.len()
        invariant
            tv == tokens_view(program_tokens@),
            i0 == *old(index),
            i0 <= *index,
            *index <= i0 || *index <= program_tokens@.len(),
            spec_def_args(tv, i0, *index as int, names_view(arguments@)) == spec_def_args(tv, i0, i0, Seq::empty()),
        decreases program_tokens@.len() - *index,
    {
        proof {
            assert(tv[*index as int] == program_tokens@[*index as int]@);
        }
        match &program_tokens[*index] {
            Tokens::Statement(v) => {
                let name = v.clone();
                proof { lemma_names_view_push(arguments@, name); }
                arguments.push(name);
            },
            Tokens::CloseParenthesis => return arguments,
            _ => {},
        }
        *index += 1;
    }
    arguments
}

fn parse_def_function(program_tokens: &Vec<Tokens>, index: &mut usize, out: &mut Vec<Stmt>) -> (r: Option<()>)
    requires
        fits(program_tokens@.len() as int, *old(index) as int, 20),
    ensures
        statements_outcome(
            spec_parse_def(tokens_view(program_tokens@), *old(index) as int, stmts_view(old(out)@)),
            r,
            final(out)@,
            *old(index) as int,
            *final(index) as int,
        ),
        r is Some ==> phi(program_tokens@.len() as int, *final(index) as int) <= phi(program_tokens@.len() as int, *old(index) as int) + 3,
    decreases remaining(program_tokens@.len() as int, *old(index) as int), 6nat,
{
    if *index >= program_tokens.len() {
        // the function's name is needed, and there is no token left
        return None;
    }
    proof {
        assert(tokens_view(program_tokens@)[*index as int] == program_tokens@[*index as int]@);
    }
    match &program_tokens[*index] {
        Tokens::Statement(func_name) => {
            *index += 2;
            let arguments = parse_def_args_function(program_tokens, index);
            *index += 2;
            let body = match try_parse(program_tokens, index) {
                None => return None,
                Some(body) => body,
            };
            let s = Stmt::FuncAssign(FuncAssign { name: func_name.clone(), arguments: arguments, body: body });
            proof { lemma_stmts_view_push(out@, s); }
            out.push(s);
        },
        _ => {},
    }
    Some(())
}

fn parse_init_for_loop(program_tokens: &Vec<Tokens>, index: &mut usize) -> (r: Option<Vec<Expr>>)
    requires
        fits(program_tokens@.len() as int, *old(index) as int, 16),
    ensures
        match spec_init_loop(tokens_view(program_tokens@), *old(index) as int, *old(index) as int, Seq::empty()) {
            None => r is None,
            Some((o, a)) => r matches Some(v) && exprs_view(v@) == o && *final(index) == *old(index) + a,
        },
        r is Some ==> phi(program_tokens@.len() as int, *final(index) as int) <= phi(program_tokens@.len() as int, *old(index) as int),
{
    let ghost tv = tokens_view(program_tokens@);
    let ghost n = program_tokens@.len() as int;
    let ghost i0 = *index as int;
    let mut out: Vec<Expr> = Vec::new();
    proof {
        assert(exprs_view(out@) =~= Seq::<ExprView>::empty());
    }
    while *index < program_tokens.len()
        invariant
            tv == tokens_view(program_tokens@),
            n == program_tokens@.len(),
            i0 == *old(index),
            fits(n, i0, 16),
            i0 <= *index,
            phi(n, *index as int) <= phi(n, i0),
            spec_init_loop(tv, i0, *index as int, exprs_view(out@)) == spec_init_loop(tv, i0, i0, Seq::empty()),
        decreases remaining(n, *index as int),
    {
        proof {
            assert(tv[*index as int] == program_tokens@[*index as int]@);
        }
        match &program_tokens[*index] {
            Tokens::SemmiColon | Tokens::CloseParenthesis => {
                return Some(out);
            },
            _ => {
                match try_parse_expression(program_tokens, index) {
                    None => return None,
                    Some((new, is_bool)) => {
                        let e = Expr::Operations(ExprOperations { instructions: new, is_bool: is_bool });
                        proof { lemma_exprs_view_push(out@, e); }
                        out.push(e);
                    },
                }
            },
        }
        if *index >= program_tokens.len() {
            // the token after the expression is needed, and there is none
            return None;
        }
        proof {
            assert(tv[*index as int] == program_tokens@[*index as int]@);
        }
        match &program_tokens[*index] {
            Tokens::SemmiColon | Tokens::CloseParenthesis => {
                return Some(out);
            },
            _ => {},
        }
        *index += 1;
    }
    Some(out)
}

fn parse_for_loop(program_tokens: &Vec<Tokens>, index: &mut usize, out: &mut Vec<Stmt>) -> (r: Option<()>)
    requires
        fits(program_tokens@.len() as int, *old(index) as int, 32),
    ensures
        statements_outcome(
            spec_parse_for(tokens_view(program_tokens@), *old(index) as int, stmts_view(old(out)@)),
            r,
            final(out)@,
            *old(index) as int,
            *final(index) as int,
        ),
        r is Some ==> phi(program_tokens@.len() as int, *final(index) as int) <= phi(program_tokens@.len() as int, *old(index) as int) + 11,
    decreases remaining(program_tokens@.len() as int, *old(index) as int), 9nat,
{
    let init = match parse_init_for_loop(program_tokens, index) {
        None => return None,
        Some(v) => v,
    };
    *index += 1;
    let (condition, is_bool) = match try_parse_expression(program_tokens, index) {
        None => return None,
        Some(p) => p,
    };
    *index += 1;
    let increment = match parse_init_for_loop(program_tokens, index) {
        None => return None,
        Some(v) => v,
    };
    *index += 2;
    let body = match try_parse(program_tokens, index) {
        None => return None,
        Some(body) => body,
    };
    let s = Stmt::ForLoop(ForLoop { init: init, condition: condition, is_bool: is_bool, increment: increment, body: body });
    proof { lemma_stmts_view_push(out@, s); }
    out.push(s);
    Some(())
}

fn parse_while_loop(program_tokens: &Vec<Tokens>, index: &mut usize, out: &mut Vec<Stmt>) -> (r: Option<()>)
    requires
        fits(program_tokens@.len() as int, *old(index) as int, 32),
    ensures
        statements_outcome(
            spec_parse_while(tokens_view(program_tokens@), *old(index) as int, stmts_view(old(out)@)),
            r,
            final(out)@,
            *old(index) as int,
            *final(index) as int,
        ),
        r is Some ==> phi(program_tokens@.len() as int, *final(index) as int) <= phi(program_tokens@.len() as int, *old(index) as int) + 9,
    decreases remaining(program_tokens@.len() as int, *old(index) as int), 9nat,
{
    let (condition, is_bool) = match try_parse_expression(program_tokens, index) {
        None => return None,
        Some(p) => p,
    };
    *index += 2;
    let body = match try_parse(program_tokens, index) {
        None => return None,
        Some(body) => body,
    };
    let s = Stmt::WhileLoop(WhileLoop { condition: condition, body: body, is_bool: is_bool });
    proof { lemma_stmts_view_push(out@, s); }
    out.push(s);
    Some(())
}

/// Reads the statements of a program from `index` up to a `}` that closes
/// them or the end; `index` moves to that `}` or past the end. `None` where
/// the reading would look at a token past the end or meets an empty word.
pub fn parse_checked(tokens: &Vec<Tokens>, index: &mut usize) -> (r: Option<Vec<Stmt>>)
    requires
        within_token_limit(tokens@.len() as int),
    ensures
        match spec_parse(tokens_view(tokens@), *old(index) as int) {
            None => r is None,
            Some((o, a)) => r matches Some(v) && stmts_view(v@) == o && *final(index) == *old(index) + a,
        },
{
    if *index >= tokens.len() {
        let r: Vec<Stmt> = Vec::new();
        proof {
            assert(stmts_view(r@) =~= Seq::<StmtView>::empty());
        }
        return Some(r);
    }
    try_parse(tokens, index)
}

/// Reads the statements of a program from `index` (see [`parse_checked`]).
/// Not for tokens on which [`parse_checked`] gives `None`.
pub fn parse(tokens: &Vec<Tokens>, index: &mut usize) -> (r: Vec<Stmt>)
    requires
        within_token_limit(tokens@.len() as int),
        spec_parse(tokens_view(tokens@), *old(index) as int) is Some,
    ensures
        spec_parse(tokens_view(tokens@), *old(index) as int) matches Some((o, a)) && stmts_view(r@) == o
            && *final(index) == *old(index) + a,
{
    match parse_checked(tokens, index) {
        Some(r) => r,
        // excluded by the precondition
        None => Vec::new(),
    }
}

} // verus!
