//! How the evaluation of nested statement lists hands its stopping reason
//! outward: which reasons end a loop, which end the list that holds a
//! nested statement, and when a function call yields its body's value.
use vstd::prelude::*;

verus! {

/// Why the evaluation of a statement list stopped.
pub enum ReasonsForStopping {
    Error(String),
    BreakStatement,
    ContinueStatement,
    ReturnStatement,
    Finished,
}

/// A statement that evaluates a statement list of its own.
#[derive(Clone, Copy, Debug, PartialEq, Eq, Structural)]
pub enum Nested {
    Block,
    If,
    Loop,
}

/// A loop stops after an evaluation of its body that ended with `reason`
/// unless the body ran to its end or met `continue`.
pub open spec fn spec_loop_stops(reason: ReasonsForStopping) -> bool {
    !(reason is Finished || reason is ContinueStatement)
}

/// The list that holds a nested statement stops, handing `reason` on, when a
/// block or an `if` ended otherwise than by running to its end, or when a
/// loop ended with `return`.
pub open spec fn spec_list_stops(nested: Nested, reason: ReasonsForStopping) -> bool {
    match nested {
        Nested::Block | Nested::If => !(reason is Finished),
        Nested::Loop => reason is ReturnStatement,
    }
}

/// Whether a loop stops, handing `reason` on, after its body ended with it.
pub fn loop_stops(reason: &ReasonsForStopping) -> (r: bool)
    ensures
        r == spec_loop_stops(*reason),
{
    match reason {
        ReasonsForStopping::Finished | ReasonsForStopping::ContinueStatement => false,
        _ => true,
    }
}

/// Whether the statement list that holds `nested` stops, handing `reason`
/// on, after `nested` ended with it.
pub fn list_stops(nested: Nested, reason: &ReasonsForStopping) -> (r: bool)
    ensures
        r == spec_list_stops(nested, *reason),
{
    match nested {
        Nested::Block | Nested::If => !matches!(reason, ReasonsForStopping::Finished),
        Nested::Loop => matches!(reason, ReasonsForStopping::ReturnStatement),
    }
}

/// Whether a function call yields the value its body ended with: only a
/// body that ended with `return` does; any other call yields zero.
pub fn call_yields_body_value(reason: &ReasonsForStopping) -> (r: bool)
    ensures
        r == (*reason is ReturnStatement),
{
    matches!(reason, ReasonsForStopping::ReturnStatement)
}

/// `break` and `continue` never leave the statement list that holds the
/// loop they ended: whatever a loop's body ended with, the list around the
/// loop stops only on `return`.
pub proof fn law_loop_keeps_break_and_continue(reason: ReasonsForStopping)
    ensures
        (spec_loop_stops(reason) && spec_list_stops(Nested::Loop, reason)) ==> reason is ReturnStatement,
        reason is BreakStatement ==> spec_loop_stops(reason) && !spec_list_stops(Nested::Loop, reason),
        reason is ContinueStatement ==> !spec_loop_stops(reason),
{
}

/// `return` passes through every nested statement: it ends every loop and
/// every list that holds a nested statement.
pub proof fn law_return_reaches_the_call(reason: ReasonsForStopping, nested: Nested)
    requires
        reason is ReturnStatement,
    ensures
        spec_loop_stops(reason),
        spec_list_stops(nested, reason),
{
}

/// A nested statement that ran to its end stops nothing around it.
pub proof fn law_finished_goes_on(reason: ReasonsForStopping, nested: Nested)
    requires
        reason is Finished,
    ensures
        !spec_loop_stops(reason),
        !spec_list_stops(nested, reason),
{
}

} // verus!
