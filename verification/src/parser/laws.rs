//! What reading expressions and statements does, stated from the outside:
//! each law relates the results of the readers to their inputs.
use vstd::prelude::*;
use crate::ast::{ElifView, ExprView, OpsView, StmtView};
use crate::ast::IfView;
use crate::parser::{spec_if_chain, spec_parse, spec_parse_if};
use crate::lexer::tokens::{TokenView, Tokens};
use crate::parser::expression::{
    ComingFrom, ExprStep, condition_part, arithmetic_part, is_modifying_token, ops, spec_expression_loop,
    spec_expression_step, spec_normalize, spec_normalize_from, spec_parse_expression, spec_statement_expr,
    spec_until_op, starts_with_digit, is_operand, is_multiplicative, ends_group,
    lemma_until_op_advances, law_group_ends_at_first_ending_operator, spec_argument_loop, is_closing,
};

verus! {

// ---------------------------------------------------------------------------
// Operators
// ---------------------------------------------------------------------------

/// A name that reads as a variable: not empty, not `read` or `internal`,
/// and not starting with a digit.
pub open spec fn plain_name(w: Seq<char>) -> bool {
    &&& w.len() > 0
    &&& w != "read"@
    &&& w != "internal"@
    &&& !starts_with_digit(w)
}

/// The tokens of `a op b;`.
pub open spec fn binary_tokens(a: Seq<char>, op: Tokens, b: Seq<char>) -> Seq<TokenView> {
    seq![
        TokenView::Statement(a),
        TokenView::Symbol(op),
        TokenView::Statement(b),
        TokenView::Symbol(Tokens::SemmiColon),
    ]
}

/// What `a op b;` reads as, for an operator whose part is `part`.
pub open spec fn reads_as(a: Seq<char>, op: Tokens, b: Seq<char>, part: ExprView, is_bool: bool) -> bool {
    spec_parse_expression(binary_tokens(a, op, b), 0) == Some(
        (seq![ExprView::VarCall(a), part, ExprView::VarCall(b)], is_bool, 3nat),
    )
}

/// What `a op b;` reads as, for `*`, `/` or `%`: one group.
pub open spec fn reads_as_group(a: Seq<char>, op: Tokens, b: Seq<char>, part: ExprView) -> bool {
    spec_parse_expression(binary_tokens(a, op, b), 0) == Some(
        (seq![ExprView::Operations(ops(seq![ExprView::VarCall(a), part, ExprView::VarCall(b)], false))], false, 3nat),
    )
}

proof fn lemma_normalize_binary(x: ExprView, part: ExprView, y: ExprView)
    requires
        is_operand(x),
        is_operand(y),
        !is_operand(part),
    ensures
        is_multiplicative(part) ==> spec_normalize(seq![x, part, y]) == seq![
            ExprView::Operations(ops(seq![x, part, y], false)),
        ],
        !is_multiplicative(part) ==> spec_normalize(seq![x, part, y]) == seq![x, part, y],
{
    let s = seq![x, part, y];
    let e = Seq::<ExprView>::empty();
    if is_multiplicative(part) {
        assert(!ends_group(x) && !ends_group(part) && !ends_group(y));
        assert(spec_until_op(s, 3, seq![x, part, y]) == (seq![x, part, y], 3int));
        assert(seq![x].push(part) == seq![x, part]);
        assert(seq![x, part].push(y) == seq![x, part, y]);
        assert(e.push(x) == seq![x]);
        assert(spec_until_op(s, 2, seq![x, part]) == (seq![x, part, y], 3int));
        assert(spec_until_op(s, 1, seq![x]) == (seq![x, part, y], 3int));
        assert(spec_until_op(s, 0, e) == (seq![x, part, y], 3int));
        assert(spec_normalize_from(s, 4, seq![ExprView::Operations(ops(s, false))]) == seq![
            ExprView::Operations(ops(s, false)),
        ]);
    } else {
        assert(spec_normalize_from(s, 2, seq![x, part]) == seq![x, part, y]);
        assert(seq![x].push(part) == seq![x, part]);
        assert(spec_normalize_from(s, 1, seq![x]) == seq![x, part, y]);
        assert(e.push(x) == seq![x]);
    }
}

proof fn lemma_binary_loop(a: Seq<char>, op: Tokens, b: Seq<char>, part: ExprView, is_bool: bool)
    requires
        plain_name(a),
        plain_name(b),
        (arithmetic_part(TokenView::Symbol(op)) == Some(part) && !is_bool) || (arithmetic_part(
            TokenView::Symbol(op),
        ) is None && condition_part(TokenView::Symbol(op)) == Some(part) && is_bool),
    ensures
        spec_parse_expression(binary_tokens(a, op, b), 0) == Some(
            (spec_normalize(seq![ExprView::VarCall(a), part, ExprView::VarCall(b)]), is_bool, 3nat),
        ),
{
    let t = binary_tokens(a, op, b);
    let e0 = Seq::<ExprView>::empty();
    let e1 = seq![ExprView::VarCall(a)];
    let e2 = e1.push(part);
    let e3 = e2.push(ExprView::VarCall(b));
    assert(!is_modifying_token(t[1]));
    assert(spec_statement_expr(a, t, 0, e0) == Some((e1, false, ComingFrom::Elsewhere, 0nat)));
    assert(spec_expression_step(t, 0, e0, false) == Some(ExprStep::Next(e1, false, 0, ComingFrom::Elsewhere)));
    assert(spec_expression_step(t, 1, e1, false) == Some(ExprStep::Next(e2, is_bool, 0, ComingFrom::Elsewhere)));
    assert(spec_statement_expr(b, t, 2, e2) == Some((e3, false, ComingFrom::Elsewhere, 0nat)));
    assert(spec_expression_step(t, 2, e2, is_bool) == Some(ExprStep::Next(e3, is_bool, 0, ComingFrom::Elsewhere)));
    assert(spec_expression_step(t, 3, e3, is_bool) == Some(ExprStep::Stop(e3, is_bool, 0)));
    assert(spec_expression_loop(t, 0, 3, e3, is_bool) == Some((e3, is_bool, 3nat)));
    assert(spec_expression_loop(t, 0, 2, e2, is_bool) == Some((e3, is_bool, 3nat)));
    assert(spec_expression_loop(t, 0, 1, e1, false) == Some((e3, is_bool, 3nat)));
    assert(spec_expression_loop(t, 0, 0, e0, false) == Some((e3, is_bool, 3nat)));
    assert(e3 == seq![ExprView::VarCall(a), part, ExprView::VarCall(b)]);
}

/// Every operator token reads as the operator of the same name: `a op b;`
/// is the variable `a`, that operator and the variable `b`; a comparison or
/// boolean operator makes it a condition; `*`, `/` and `%` make one group.
pub proof fn law_each_operator_reads_as_itself(a: Seq<char>, b: Seq<char>)
    requires
        plain_name(a),
        plain_name(b),
    ensures
        reads_as(a, Tokens::EqualsTo, b, ExprView::Equals, true),
        reads_as(a, Tokens::IsDifferent, b, ExprView::Different, true),
        reads_as(a, Tokens::BiggerThan, b, ExprView::BiggerThan, true),
        reads_as(a, Tokens::BiggerThanOrEqual, b, ExprView::BiggerOrEqual, true),
        reads_as(a, Tokens::SmallerThan, b, ExprView::SmallerThan, true),
        reads_as(a, Tokens::SmallerOrEqual, b, ExprView::SmallerOrEqual, true),
        reads_as(a, Tokens::NotBool, b, ExprView::NOT, true),
        reads_as(a, Tokens::OrBool, b, ExprView::OR, true),
        reads_as(a, Tokens::AndBool, b, ExprView::AND, true),
        reads_as(a, Tokens::Add, b, ExprView::Add, false),
        reads_as(a, Tokens::Subtract, b, ExprView::Subtract, false),
        reads_as_group(a, Tokens::Multiply, b, ExprView::Multiply),
        reads_as_group(a, Tokens::Divide, b, ExprView::Divide),
        reads_as_group(a, Tokens::Mod, b, ExprView::Mod),
{
    lemma_binary_loop(a, Tokens::EqualsTo, b, ExprView::Equals, true);
    lemma_binary_loop(a, Tokens::IsDifferent, b, ExprView::Different, true);
    lemma_binary_loop(a, Tokens::BiggerThan, b, ExprView::BiggerThan, true);
    lemma_binary_loop(a, Tokens::BiggerThanOrEqual, b, ExprView::BiggerOrEqual, true);
    lemma_binary_loop(a, Tokens::SmallerThan, b, ExprView::SmallerThan, true);
    lemma_binary_loop(a, Tokens::SmallerOrEqual, b, ExprView::SmallerOrEqual, true);
    lemma_binary_loop(a, Tokens::NotBool, b, ExprView::NOT, true);
    lemma_binary_loop(a, Tokens::OrBool, b, ExprView::OR, true);
    lemma_binary_loop(a, Tokens::AndBool, b, ExprView::AND, true);
    lemma_binary_loop(a, Tokens::Add, b, ExprView::Add, false);
    lemma_binary_loop(a, Tokens::Subtract, b, ExprView::Subtract, false);
    lemma_binary_loop(a, Tokens::Multiply, b, ExprView::Multiply, false);
    lemma_binary_loop(a, Tokens::Divide, b, ExprView::Divide, false);
    lemma_binary_loop(a, Tokens::Mod, b, ExprView::Mod, false);
    let va = ExprView::VarCall(a);
    let vb = ExprView::VarCall(b);
    lemma_normalize_binary(va, ExprView::Equals, vb);
    lemma_normalize_binary(va, ExprView::Different, vb);
    lemma_normalize_binary(va, ExprView::BiggerThan, vb);
    lemma_normalize_binary(va, ExprView::BiggerOrEqual, vb);
    lemma_normalize_binary(va, ExprView::SmallerThan, vb);
    lemma_normalize_binary(va, ExprView::SmallerOrEqual, vb);
    lemma_normalize_binary(va, ExprView::NOT, vb);
    lemma_normalize_binary(va, ExprView::OR, vb);
    lemma_normalize_binary(va, ExprView::AND, vb);
    lemma_normalize_binary(va, ExprView::Add, vb);
    lemma_normalize_binary(va, ExprView::Subtract, vb);
    lemma_normalize_binary(va, ExprView::Multiply, vb);
    lemma_normalize_binary(va, ExprView::Divide, vb);
    lemma_normalize_binary(va, ExprView::Mod, vb);
}

// ---------------------------------------------------------------------------
// Normalizing: operator precedence
// ---------------------------------------------------------------------------

proof fn lemma_until_op_shift(p: Seq<ExprView>, b: Seq<ExprView>, k: int, acc: Seq<ExprView>)
    requires
        0 <= k,
    ensures
        spec_until_op(p + b, p.len() + k, acc) == (spec_until_op(b, k, acc).0, p.len() + spec_until_op(b, k, acc).1),
    decreases b.len() - k,
{
    if k < b.len() {
        assert((p + b)[p.len() + k] == b[k]);
        if !ends_group(b[k]) {
            lemma_until_op_shift(p, b, k + 1, acc.push(b[k]));
        }
    }
}

proof fn lemma_until_op_prefix(a: Seq<ExprView>, x: ExprView, b: Seq<ExprView>, i: int, acc: Seq<ExprView>)
    requires
        ends_group(x),
        0 <= i <= a.len(),
    ensures
        spec_until_op(a + seq![x] + b, i, acc) == spec_until_op(a, i, acc),
    decreases a.len() - i,
{
    let f = a + seq![x] + b;
    if i < a.len() {
        assert(f[i] == a[i]);
        if !ends_group(a[i]) {
            lemma_until_op_prefix(a, x, b, i + 1, acc.push(a[i]));
        }
    } else {
        assert(f[i] == x);
    }
}

proof fn lemma_normalize_out(b: Seq<ExprView>, k: int, o1: Seq<ExprView>, o2: Seq<ExprView>)
    ensures
        spec_normalize_from(b, k, o1 + o2) == o1 + spec_normalize_from(b, k, o2),
    decreases if k < b.len() { b.len() - k } else { 0 },
{
    if 0 <= k < b.len() {
        let cur = b[k];
        assert((o1 + o2).push(cur) == o1 + o2.push(cur));
        if is_operand(cur) && k + 1 >= b.len() {
        } else if is_operand(cur) && is_multiplicative(b[k + 1]) {
            let (group, j) = spec_until_op(b, k, Seq::empty());
            lemma_until_op_advances(b, k, Seq::empty());
            let g = ExprView::Operations(ops(group, false));
            assert((o1 + o2).push(g) == o1 + o2.push(g));
            if j < b.len() {
                assert((o1 + o2).push(g).push(b[j]) == o1 + o2.push(g).push(b[j]));
                lemma_normalize_out(b, j + 1, o1, o2.push(g).push(b[j]));
            } else {
                lemma_normalize_out(b, j + 1, o1, o2.push(g));
            }
        } else {
            lemma_normalize_out(b, k + 1, o1, o2.push(cur));
        }
    }
}

proof fn lemma_normalize_shift(p: Seq<ExprView>, b: Seq<ExprView>, k: int, out: Seq<ExprView>)
    requires
        0 <= k,
    ensures
        spec_normalize_from(p + b, p.len() + k, out) == spec_normalize_from(b, k, out),
    decreases if k < b.len() { b.len() - k } else { 0 },
{
    let f = p + b;
    if k < b.len() {
        let cur = b[k];
        assert(f[p.len() + k] == cur);
        if k + 1 < b.len() {
            assert(f[p.len() + k + 1] == b[k + 1]);
        }
        if is_operand(cur) && k + 1 >= b.len() {
        } else if is_operand(cur) && is_multiplicative(b[k + 1]) {
            lemma_until_op_shift(p, b, k, Seq::empty());
            lemma_until_op_advances(b, k, Seq::empty());
            let (group, j) = spec_until_op(b, k, Seq::empty());
            if j < b.len() {
                assert(f[p.len() + j] == b[j]);
            }
            lemma_normalize_shift(p, b, j + 1, if j < b.len() {
                out.push(ExprView::Operations(ops(group, false))).push(b[j])
            } else {
                out.push(ExprView::Operations(ops(group, false)))
            });
        } else {
            lemma_normalize_shift(p, b, k + 1, out.push(cur));
        }
    }
}

proof fn lemma_normalize_split(a: Seq<ExprView>, x: ExprView, b: Seq<ExprView>, i: int, out: Seq<ExprView>)
    requires
        ends_group(x),
        0 <= i <= a.len(),
    ensures
        spec_normalize_from(a + seq![x] + b, i, out) == spec_normalize_from(a, i, out) + seq![x]
            + spec_normalize(b),
    decreases a.len() - i,
{
    let f = a + seq![x] + b;
    let p = a + seq![x];
    assert(f == p + b);
    assert(!is_operand(x) && !is_multiplicative(x));
    if i == a.len() {
        assert(f[i] == x);
        lemma_normalize_shift(p, b, 0, out.push(x));
        lemma_normalize_out(b, 0, out.push(x), Seq::empty());
        assert(out.push(x) + Seq::<ExprView>::empty() == out.push(x));
        assert(out.push(x) == out + seq![x]);
        assert(spec_normalize_from(f, i, out) == spec_normalize_from(a, i, out) + seq![x] + spec_normalize(b));
    } else {
        let cur = a[i];
        assert(f[i] == cur);
        if i + 1 < a.len() {
            assert(f[i + 1] == a[i + 1]);
        } else {
            assert(f[i + 1] == x);
        }
        if is_operand(cur) && i + 1 >= a.len() {
            lemma_normalize_split(a, x, b, i + 1, out.push(cur));
            assert(spec_normalize_from(f, i, out) == spec_normalize_from(a, i, out) + seq![x] + spec_normalize(b));
        } else if is_operand(cur) && is_multiplicative(a[i + 1]) {
            lemma_until_op_prefix(a, x, b, i, Seq::empty());
            lemma_until_op_advances(a, i, Seq::empty());
            let (group, j) = spec_until_op(a, i, Seq::empty());
            let out1 = out.push(ExprView::Operations(ops(group, false)));
            if j < a.len() {
                assert(f[j] == a[j]);
                lemma_normalize_split(a, x, b, j + 1, out1.push(a[j]));
                assert(spec_normalize_from(f, i, out) == spec_normalize_from(a, i, out) + seq![x] + spec_normalize(b));
            } else {
                assert(f[j] == x);
                lemma_normalize_shift(p, b, 0, out1.push(x));
                lemma_normalize_out(b, 0, out1.push(x), Seq::empty());
                assert(out1.push(x) + Seq::<ExprView>::empty() == out1.push(x));
                assert(out1.push(x) == out1 + seq![x]);
                assert(j + 1 == p.len());
                assert(spec_normalize_from(a, j + 1, out1) == out1);
                assert(spec_normalize_from(a, i, out) == out1);
                assert(spec_normalize_from(f, i, out) == spec_normalize_from(f, j + 1, out1.push(x)));
                assert(spec_normalize_from(f, i, out) == spec_normalize_from(a, i, out) + seq![x] + spec_normalize(b));
            }
        } else {
            lemma_normalize_split(a, x, b, i + 1, out.push(cur));
            assert(spec_normalize_from(f, i, out) == spec_normalize_from(a, i, out) + seq![x] + spec_normalize(b));
        }
    }
}

/// An operator that ends a group (`+`, `-`, a comparison or a boolean
/// operator) splits normalizing: the parts before it and those after it are
/// normalized each on their own, and it stays between them.
pub proof fn law_normalize_splits_at_ending_operator(a: Seq<ExprView>, x: ExprView, b: Seq<ExprView>)
    requires
        ends_group(x),
    ensures
        spec_normalize(a + seq![x] + b) == spec_normalize(a) + seq![x] + spec_normalize(b),
{
    lemma_normalize_split(a, x, b, 0, Seq::empty());
}

/// A value followed by `*`, `/` or `%`, with no operator that ends a group
/// anywhere after it, becomes one group holding every part.
pub proof fn law_normalize_groups_a_whole_product(s: Seq<ExprView>)
    requires
        s.len() >= 2,
        is_operand(s[0]),
        is_multiplicative(s[1]),
        forall|k: int| 0 <= k < s.len() ==> !ends_group(#[trigger] s[k]),
    ensures
        spec_normalize(s) == seq![ExprView::Operations(ops(s, false))],
{
    law_group_ends_at_first_ending_operator(s, 0);
    let (g, j) = spec_until_op(s, 0, Seq::empty());
    assert(j == s.len());
    assert(g == s.subrange(0, s.len() as int));
    assert(s.subrange(0, s.len() as int) == s);
    let e = Seq::<ExprView>::empty();
    assert(spec_normalize_from(s, j + 1, e.push(ExprView::Operations(ops(s, false)))) == e.push(
        ExprView::Operations(ops(s, false)),
    ));
}

/// A first part that does not start a product (it is no value, or no `*`,
/// `/` or `%` follows it) stays as it is, and the rest is normalized on its
/// own.
pub proof fn law_normalize_keeps_a_first_part(s: Seq<ExprView>)
    requires
        s.len() >= 1,
        !(is_operand(s[0]) && s.len() >= 2 && is_multiplicative(s[1])),
    ensures
        spec_normalize(s) == seq![s[0]] + spec_normalize(s.drop_first()),
{
    let e = Seq::<ExprView>::empty();
    assert(e.push(s[0]) == seq![s[0]]);
    if is_operand(s[0]) && s.len() == 1 {
        assert(s.drop_first() == e);
        assert(seq![s[0]] + e == seq![s[0]]);
    } else {
        assert(s == seq![s[0]] + s.drop_first());
        lemma_normalize_shift(seq![s[0]], s.drop_first(), 0, seq![s[0]]);
        lemma_normalize_out(s.drop_first(), 0, seq![s[0]], e);
        assert(seq![s[0]] + e == seq![s[0]]);
    }
}

// ---------------------------------------------------------------------------
// Argument lists
// ---------------------------------------------------------------------------

proof fn lemma_argument_loop_acc(t: Seq<TokenView>, start: int, i: int, args: Seq<OpsView>, square: bool)
    requires
        start <= i,
    ensures
        spec_argument_loop(t, start, i, args, square) == match spec_argument_loop(t, i, i, Seq::empty(), square) {
            Some((r, n)) => Some((args + r, (i - start + n) as nat)),
            None => None,
        },
    decreases if 0 <= i < t.len() { t.len() - i } else { 0 },
{
    let e = Seq::<OpsView>::empty();
    if !(0 <= i < t.len()) || is_closing(t[i], square) {
        assert(args + e == args);
    } else {
        match spec_parse_expression(t, i) {
            Some((arg, arg_bool, a)) => {
                let j = i + a;
                let x = ops(arg, arg_bool);
                assert(args.push(x) == args + e.push(x));
                if j < t.len() && !is_closing(t[j], square) {
                    lemma_argument_loop_acc(t, start, j + 1, args.push(x), square);
                    lemma_argument_loop_acc(t, i, j + 1, e.push(x), square);
                    match spec_argument_loop(t, j + 1, j + 1, e, square) {
                        Some((r, n)) => {
                            assert(args.push(x) + r == args + (e.push(x) + r));
                        },
                        None => {},
                    }
                }
            },
            None => {},
        }
    }
}

/// An argument list (or the items of an array) is empty exactly when it
/// starts at its closing `)` (or `]`) or at the end of the tokens.
pub proof fn law_empty_argument_list(t: Seq<TokenView>, i: int, square: bool)
    requires
        0 <= i,
        i >= t.len() || is_closing(t[i], square),
    ensures
        spec_argument_loop(t, i, i, Seq::empty(), square) == Some((Seq::<OpsView>::empty(), 0nat)),
{
}

/// Each argument of a call (or item of an array) is exactly the expression
/// that reading an expression at its position gives, its parts and whether
/// it is a condition: the first one is read at the list's start; after it
/// comes the closing `)` (or `]`), which ends the list, or a separator,
/// after which the rest of the list is read as a list of its own.
pub proof fn law_each_argument_is_an_expression(t: Seq<TokenView>, i: int, square: bool)
    requires
        0 <= i < t.len(),
        !is_closing(t[i], square),
        spec_argument_loop(t, i, i, Seq::empty(), square) is Some,
    ensures
        spec_parse_expression(t, i) matches Some((e, b, a)) && i + a < t.len() && (if is_closing(t[i + a], square) {
            spec_argument_loop(t, i, i, Seq::empty(), square) == Some((seq![ops(e, b)], a))
        } else {
            spec_argument_loop(t, i + a + 1, i + a + 1, Seq::empty(), square) matches Some((rest, n))
                && spec_argument_loop(t, i, i, Seq::empty(), square) == Some((seq![ops(e, b)] + rest, (a + 1 + n) as nat))
        }),
{
    let e0 = Seq::<OpsView>::empty();
    if let Some((e, b, a)) = spec_parse_expression(t, i) {
        let j = i + a;
        assert(e0.push(ops(e, b)) == seq![ops(e, b)]);
        if j < t.len() && !is_closing(t[j], square) {
            lemma_argument_loop_acc(t, i, j + 1, seq![ops(e, b)], square);
        }
    }
}

// ---------------------------------------------------------------------------
// If chains
// ---------------------------------------------------------------------------

proof fn lemma_if_chain_acc(
    t: Seq<TokenView>,
    start: int,
    k: int,
    elifs: Seq<ElifView>,
    els: Seq<StmtView>,
)
    requires
        start <= k,
    ensures
        spec_if_chain(t, start, k, elifs, els) == match spec_if_chain(t, k, k, Seq::empty(), els) {
            Some((e2, x, n)) => Some((elifs + e2, x, (k - start + n) as nat)),
            None => None,
        },
    decreases if 0 <= k < t.len() { t.len() - k } else { 0 },
{
    let e = Seq::<ElifView>::empty();
    assert(elifs + e == elifs);
    if 0 <= k < t.len() && t[k] is Statement {
        let w = t[k]->Statement_0;
        if w != "else"@ && w == "elif"@ && k + 2 < t.len() {
            if let Some((cond, cond_bool, a)) = spec_parse_expression(t, k + 2) {
                let k1 = k + 2 + a;
                if k1 + 2 < t.len() {
                    if let Some((body, a2)) = spec_parse(t, k1 + 2) {
                        let k2 = k1 + 2 + a2;
                        let x = ElifView { condition: cond, condition_bool: cond_bool, then_body: body };
                        assert(elifs.push(x) == elifs + e.push(x));
                        lemma_if_chain_acc(t, start, k2 + 1, elifs.push(x), els);
                        lemma_if_chain_acc(t, k, k2 + 1, e.push(x), els);
                        if let Some((r, y, n)) = spec_if_chain(t, k2 + 1, k2 + 1, e, els) {
                            assert(elifs.push(x) + r == elifs + (e.push(x) + r));
                        }
                    }
                }
            }
        }
    }
}

/// An `elif` clause whose condition and body can be read joins the chain
/// and the chain goes on after its closing `}`: the clauses read from the
/// `elif` are that clause (the condition that reading an expression gives
/// after `elif (`, the statements that reading statements gives after its
/// `{`) followed by every clause, and the `else` body, read from there.
pub proof fn law_if_chain_reads_every_elif(t: Seq<TokenView>, k: int)
    requires
        0 <= k,
        k + 2 < t.len(),
        t[k] == TokenView::Statement("elif"@),
    ensures
        spec_parse_expression(t, k + 2) matches Some((cond, cond_bool, a)) ==> (k + a + 4 < t.len() ==> (spec_parse(
            t,
            k + a + 4,
        ) matches Some((body, a2)) ==> spec_if_chain(t, k, k, Seq::empty(), Seq::empty()) == match spec_if_chain(
            t,
            k + a + a2 + 5,
            k + a + a2 + 5,
            Seq::empty(),
            Seq::empty(),
        ) {
            Some((elifs, els, n)) => Some(
                (
                    seq![ElifView { condition: cond, condition_bool: cond_bool, then_body: body }] + elifs,
                    els,
                    (a + a2 + 5 + n) as nat,
                ),
            ),
            None => None,
        })),
{
    reveal_strlit("elif");
    reveal_strlit("else");
    assert("elif"@ != "else"@) by {
        assert("elif"@[2] != "else"@[2]);
    }
    let e = Seq::<ElifView>::empty();
    if let Some((cond, cond_bool, a)) = spec_parse_expression(t, k + 2) {
        let k1 = k + 2 + a;
        if k1 + 2 < t.len() {
            if let Some((body, a2)) = spec_parse(t, k1 + 2) {
                let k2 = k1 + 2 + a2;
                let x = ElifView { condition: cond, condition_bool: cond_bool, then_body: body };
                assert(e.push(x) == seq![x]);
                lemma_if_chain_acc(t, k, k2 + 1, seq![x], Seq::empty());
            }
        }
    }
}

/// An `else` ends the chain: its body is what reading statements gives
/// after its `{`, and the chain reads past the `}` that closes it.
pub proof fn law_if_chain_reads_else(t: Seq<TokenView>, k: int)
    requires
        0 <= k,
        k + 2 < t.len(),
        t[k] == TokenView::Statement("else"@),
    ensures
        spec_parse(t, k + 2) matches Some((body, a)) ==> spec_if_chain(t, k, k, Seq::empty(), Seq::empty()) == Some(
            (Seq::<ElifView>::empty(), body, (a + 3) as nat),
        ),
        spec_parse(t, k + 2) is None ==> spec_if_chain(t, k, k, Seq::empty(), Seq::empty()) is None,
{
}

/// The chain ends, reading nothing, at a token that is neither `elif` nor
/// `else`.
pub proof fn law_if_chain_stops_elsewhere(t: Seq<TokenView>, k: int)
    requires
        0 <= k,
        k >= t.len() || (t[k] != TokenView::Statement("elif"@) && t[k] != TokenView::Statement("else"@)),
    ensures
        spec_if_chain(t, k, k, Seq::empty(), Seq::empty()) == Some(
            (Seq::<ElifView>::empty(), Seq::<StmtView>::empty(), 0nat),
        ),
{
}

/// An `if` statement is its condition (read after `if (`), its body (read
/// after its `{`), and every `elif` clause and the `else` body that the
/// chain after the body's `}` reads.
pub proof fn law_if_statement_takes_its_chain(t: Seq<TokenView>, i: int, out: Seq<StmtView>)
    requires
        0 <= i,
        i + 2 < t.len(),
    ensures
        spec_parse_expression(t, i + 2) matches Some((cond, cond_bool, a)) ==> (i + a + 4 < t.len() ==> (spec_parse(
            t,
            i + a + 4,
        ) matches Some((body, a2)) ==> (i + a + a2 + 5 < t.len() ==> (spec_if_chain(
            t,
            i + a + a2 + 5,
            i + a + a2 + 5,
            Seq::empty(),
            Seq::empty(),
        ) matches Some((elifs, els, n)) ==> spec_parse_if(t, i, out) == Some(
            (
                out.push(
                    StmtView::If(
                        IfView {
                            condition: cond,
                            condition_bool: cond_bool,
                            if_then: body,
                            elif_then: elifs,
                            else_then: els,
                        },
                    ),
                ),
                (a + a2 + 4 + n) as nat,
            ),
        ))))),
{
}

} // verus!
