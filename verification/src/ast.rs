//! The syntax tree that the parser builds, and its mathematical view.
use vstd::prelude::*;

verus! {

// ---------------------------------------------------------------------------
// The syntax tree
// ---------------------------------------------------------------------------

#[derive(Debug)]
pub struct VarCalling {
    pub name: String,
}

#[derive(Debug)]
pub struct ModifyingOperation {
    pub name: String,
    pub value: ExprOperations,
}

/// A sequence of expression parts, and whether it was read as a condition.
#[derive(Debug)]
pub struct ExprOperations {
    pub instructions: Vec<Expr>,
    pub is_bool: bool,
}

#[derive(Debug)]
pub struct FuncCall {
    pub name: String,
    pub arguments: Vec<ExprOperations>,
}

#[derive(Debug)]
pub struct VarAssign {
    pub name: String,
    pub value: ExprOperations,
}

#[derive(Debug)]
pub struct ArrayCall {
    pub name: String,
    pub at: ExprOperations,
}

#[derive(Debug)]
pub struct ArrayCallMod {
    pub name: String,
    pub at: ExprOperations,
    pub new_value: ExprOperations,
}

/// A part of an expression.
#[derive(Debug)]
pub enum Expr {
    /// A number literal, as the text the program wrote it with.
    Number(String),
    String(String),
    Array(Vec<ExprOperations>),
    ArrayCall(ArrayCall),
    ArrayCallMod(ArrayCallMod),
    Add,
    Subtract,
    Multiply,
    Divide,
    Mod,
    Increment(VarCalling),
    Decrement(VarCalling),
    AddTo(ModifyingOperation),
    SubtractTo(ModifyingOperation),
    MultiplyTo(ModifyingOperation),
    DivideTo(ModifyingOperation),
    ModTo(ModifyingOperation),
    Equals,
    BiggerThan,
    BiggerOrEqual,
    SmallerThan,
    SmallerOrEqual,
    Different,
    OR,
    AND,
    NOT,
    Read,
    /// Operations inside parentheses.
    Operations(ExprOperations),
    VarCall(VarCalling),
    FuncCall(FuncCall),
    Internal(FuncCall),
    VarAssign(VarAssign),
}

/// `define name(arguments) { body }`
#[derive(Debug)]
pub struct FuncAssign {
    pub name: String,
    pub arguments: Vec<String>,
    pub body: Vec<Stmt>,
}

#[derive(Debug)]
pub struct Elif {
    pub condition: Vec<Expr>,
    pub condition_bool: bool,
    pub then_body: Vec<Stmt>,
}

#[derive(Debug)]
pub struct If {
    pub condition: Vec<Expr>,
    pub condition_bool: bool,
    pub if_then: Vec<Stmt>,
    pub elif_then: Vec<Elif>,
    pub else_then: Vec<Stmt>,
}

#[derive(Debug)]
pub struct ForLoop {
    pub init: Vec<Expr>,
    pub condition: Vec<Expr>,
    pub is_bool: bool,
    pub increment: Vec<Expr>,
    pub body: Vec<Stmt>,
}

#[derive(Debug)]
pub struct WhileLoop {
    pub condition: Vec<Expr>,
    pub is_bool: bool,
    pub body: Vec<Stmt>,
}

/// A statement. An expression statement and a `return` hold an expression
/// part (the parser gives them an `Operations`); `print` holds the
/// operations themselves.
#[derive(Debug)]
pub enum Stmt {
    Expression(Expr),
    Print(ExprOperations),
    Return(Expr),
    Continue,
    Break,
    Block(Vec<Stmt>),
    FuncAssign(FuncAssign),
    If(If),
    ForLoop(ForLoop),
    WhileLoop(WhileLoop),
}

// ---------------------------------------------------------------------------
// The tree as a mathematical value: names as character sequences, lists as
// sequences
// ---------------------------------------------------------------------------

pub struct OpsView {
    pub instructions: Seq<ExprView>,
    pub is_bool: bool,
}

pub enum ExprView {
    Number(Seq<char>),
    String(Seq<char>),
    Array(Seq<OpsView>),
    ArrayCall(Seq<char>, OpsView),
    ArrayCallMod(Seq<char>, OpsView, OpsView),
    Add,
    Subtract,
    Multiply,
    Divide,
    Mod,
    Increment(Seq<char>),
    Decrement(Seq<char>),
    AddTo(Seq<char>, OpsView),
    SubtractTo(Seq<char>, OpsView),
    MultiplyTo(Seq<char>, OpsView),
    DivideTo(Seq<char>, OpsView),
    ModTo(Seq<char>, OpsView),
    Equals,
    BiggerThan,
    BiggerOrEqual,
    SmallerThan,
    SmallerOrEqual,
    Different,
    OR,
    AND,
    NOT,
    Read,
    Operations(OpsView),
    VarCall(Seq<char>),
    FuncCall(Seq<char>, Seq<OpsView>),
    Internal(Seq<char>, Seq<OpsView>),
    VarAssign(Seq<char>, OpsView),
}

pub struct ElifView {
    pub condition: Seq<ExprView>,
    pub condition_bool: bool,
    pub then_body: Seq<StmtView>,
}

pub struct IfView {
    pub condition: Seq<ExprView>,
    pub condition_bool: bool,
    pub if_then: Seq<StmtView>,
    pub elif_then: Seq<ElifView>,
    pub else_then: Seq<StmtView>,
}

pub struct ForView {
    pub init: Seq<ExprView>,
    pub condition: Seq<ExprView>,
    pub is_bool: bool,
    pub increment: Seq<ExprView>,
    pub body: Seq<StmtView>,
}

pub enum StmtView {
    Expression(ExprView),
    Print(OpsView),
    Return(ExprView),
    Continue,
    Break,
    Block(Seq<StmtView>),
    FuncAssign(Seq<char>, Seq<Seq<char>>, Seq<StmtView>),
    If(IfView),
    ForLoop(ForView),
    WhileLoop(Seq<ExprView>, bool, Seq<StmtView>),
}

pub open spec fn expr_view(e: Expr) -> ExprView
    decreases e, 0nat,
{
    match e {
        Expr::Number(s) => ExprView::Number(s@),
        Expr::String(s) => ExprView::String(s@),
        Expr::Array(v) => ExprView::Array(opss_view(v@)),
        Expr::ArrayCall(a) => ExprView::ArrayCall(a.name@, ops_view(a.at)),
        Expr::ArrayCallMod(a) => ExprView::ArrayCallMod(
            a.name@,
            ops_view(a.at),
            ops_view(a.new_value),
        ),
        Expr::Add => ExprView::Add,
        Expr::Subtract => ExprView::Subtract,
        Expr::Multiply => ExprView::Multiply,
        Expr::Divide => ExprView::Divide,
        Expr::Mod => ExprView::Mod,
        Expr::Increment(v) => ExprView::Increment(v.name@),
        Expr::Decrement(v) => ExprView::Decrement(v.name@),
        Expr::AddTo(m) => ExprView::AddTo(m.name@, ops_view(m.value)),
        Expr::SubtractTo(m) => ExprView::SubtractTo(m.name@, ops_view(m.value)),
        Expr::MultiplyTo(m) => ExprView::MultiplyTo(m.name@, ops_view(m.value)),
        Expr::DivideTo(m) => ExprView::DivideTo(m.name@, ops_view(m.value)),
        Expr::ModTo(m) => ExprView::ModTo(m.name@, ops_view(m.value)),
        Expr::Equals => ExprView::Equals,
        Expr::BiggerThan => ExprView::BiggerThan,
        Expr::BiggerOrEqual => ExprView::BiggerOrEqual,
        Expr::SmallerThan => ExprView::SmallerThan,
        Expr::SmallerOrEqual => ExprView::SmallerOrEqual,
        Expr::Different => ExprView::Different,
        Expr::OR => ExprView::OR,
        Expr::AND => ExprView::AND,
        Expr::NOT => ExprView::NOT,
        Expr::Read => ExprView::Read,
        Expr::Operations(o) => ExprView::Operations(ops_view(o)),
        Expr::VarCall(v) => ExprView::VarCall(v.name@),
        Expr::FuncCall(f) => ExprView::FuncCall(f.name@, opss_view(f.arguments@)),
        Expr::Internal(f) => ExprView::Internal(f.name@, opss_view(f.arguments@)),
        Expr::VarAssign(a) => ExprView::VarAssign(a.name@, ops_view(a.value)),
    }
}

pub open spec fn ops_view(o: ExprOperations) -> OpsView
    decreases o, 1nat,
{
    OpsView { instructions: exprs_view(o.instructions@), is_bool: o.is_bool }
}

pub open spec fn exprs_view(s: Seq<Expr>) -> Seq<ExprView>
    decreases s, 2nat,
{
    if s.len() == 0 {
        Seq::empty()
    } else {
        exprs_view(s.drop_last()).push(expr_view(s.last()))
    }
}

pub open spec fn opss_view(s: Seq<ExprOperations>) -> Seq<OpsView>
    decreases s, 3nat,
{
    if s.len() == 0 {
        Seq::empty()
    } else {
        opss_view(s.drop_last()).push(ops_view(s.last()))
    }
}

pub open spec fn names_view(s: Seq<String>) -> Seq<Seq<char>> {
    s.map_values(|n: String| n@)
}

pub open spec fn stmt_view(s: Stmt) -> StmtView
    decreases s, 0nat,
{
    match s {
        Stmt::Expression(e) => StmtView::Expression(expr_view(e)),
        Stmt::Print(o) => StmtView::Print(ops_view(o)),
        Stmt::Return(e) => StmtView::Return(expr_view(e)),
        Stmt::Continue => StmtView::Continue,
        Stmt::Break => StmtView::Break,
        Stmt::Block(b) => StmtView::Block(stmts_view(b@)),
        Stmt::FuncAssign(f) => StmtView::FuncAssign(
            f.name@,
            names_view(f.arguments@),
            stmts_view(f.body@),
        ),
        Stmt::If(i) => StmtView::If(
            IfView {
                condition: exprs_view(i.condition@),
                condition_bool: i.condition_bool,
                if_then: stmts_view(i.if_then@),
                elif_then: elifs_view(i.elif_then@),
                else_then: stmts_view(i.else_then@),
            },
        ),
        Stmt::ForLoop(f) => StmtView::ForLoop(
            ForView {
                init: exprs_view(f.init@),
                condition: exprs_view(f.condition@),
                is_bool: f.is_bool,
                increment: exprs_view(f.increment@),
                body: stmts_view(f.body@),
            },
        ),
        Stmt::WhileLoop(w) => StmtView::WhileLoop(
            exprs_view(w.condition@),
            w.is_bool,
            stmts_view(w.body@),
        ),
    }
}

pub open spec fn stmts_view(s: Seq<Stmt>) -> Seq<StmtView>
    decreases s, 1nat,
{
    if s.len() == 0 {
        Seq::empty()
    } else {
        stmts_view(s.drop_last()).push(stmt_view(s.last()))
    }
}

pub open spec fn elif_view(e: Elif) -> ElifView
    decreases e, 2nat,
{
    ElifView {
        condition: exprs_view(e.condition@),
        condition_bool: e.condition_bool,
        then_body: stmts_view(e.then_body@),
    }
}

pub open spec fn elifs_view(s: Seq<Elif>) -> Seq<ElifView>
    decreases s, 3nat,
{
    if s.len() == 0 {
        Seq::empty()
    } else {
        elifs_view(s.drop_last()).push(elif_view(s.last()))
    }
}

impl View for Expr {
    type V = ExprView;

    open spec fn view(&self) -> ExprView {
        expr_view(*self)
    }
}

impl View for ExprOperations {
    type V = OpsView;

    open spec fn view(&self) -> OpsView {
        ops_view(*self)
    }
}

impl View for Stmt {
    type V = StmtView;

    open spec fn view(&self) -> StmtView {
        stmt_view(*self)
    }
}

impl View for Elif {
    type V = ElifView;

    open spec fn view(&self) -> ElifView {
        elif_view(*self)
    }
}

// ---------------------------------------------------------------------------
// Views of sequences built by pushing
// ---------------------------------------------------------------------------

pub proof fn lemma_exprs_view_push(s: Seq<Expr>, e: Expr)
    ensures
        exprs_view(s.push(e)) == exprs_view(s).push(expr_view(e)),
{
    assert(s.push(e).drop_last() =~= s);
}

pub proof fn lemma_opss_view_push(s: Seq<ExprOperations>, o: ExprOperations)
    ensures
        opss_view(s.push(o)) == opss_view(s).push(ops_view(o)),
{
    assert(s.push(o).drop_last() =~= s);
}

pub proof fn lemma_stmts_view_push(s: Seq<Stmt>, t: Stmt)
    ensures
        stmts_view(s.push(t)) == stmts_view(s).push(stmt_view(t)),
{
    assert(s.push(t).drop_last() =~= s);
}

pub proof fn lemma_elifs_view_push(s: Seq<Elif>, e: Elif)
    ensures
        elifs_view(s.push(e)) == elifs_view(s).push(elif_view(e)),
{
    assert(s.push(e).drop_last() =~= s);
}

pub proof fn lemma_names_view_push(s: Seq<String>, n: String)
    ensures
        names_view(s.push(n)) == names_view(s).push(n@),
{
    assert(names_view(s.push(n)) =~= names_view(s).push(n@));
}

pub proof fn lemma_exprs_view_len(s: Seq<Expr>)
    ensures
        exprs_view(s).len() == s.len(),
    decreases s.len(),
{
    if s.len() > 0 {
        lemma_exprs_view_len(s.drop_last());
    }
}

pub proof fn lemma_exprs_view_index(s: Seq<Expr>, i: int)
    requires
        0 <= i < s.len(),
    ensures
        exprs_view(s).len() == s.len(),
        exprs_view(s)[i] == expr_view(s[i]),
    decreases s.len(),
{
    lemma_exprs_view_len(s);
    if i < s.len() - 1 {
        lemma_exprs_view_index(s.drop_last(), i);
    }
}

// ---------------------------------------------------------------------------
// Copies
// ---------------------------------------------------------------------------

pub fn copy_expr(e: &Expr) -> (r: Expr)
    ensures
        r@ == e@,
    decreases e, 0nat,
{
    match e {
        Expr::Number(s) => Expr::Number(s.clone()),
        Expr::String(s) => Expr::String(s.clone()),
        Expr::Array(v) => Expr::Array(copy_opss(v)),
        Expr::ArrayCall(a) => Expr::ArrayCall(ArrayCall { name: a.name.clone(), at: copy_ops(&a.at) }),
        Expr::ArrayCallMod(a) => Expr::ArrayCallMod(
            ArrayCallMod {
                name: a.name.clone(),
                at: copy_ops(&a.at),
                new_value: copy_ops(&a.new_value),
            },
        ),
        Expr::Add => Expr::Add,
        Expr::Subtract => Expr::Subtract,
        Expr::Multiply => Expr::Multiply,
        Expr::Divide => Expr::Divide,
        Expr::Mod => Expr::Mod,
        Expr::Increment(v) => Expr::Increment(VarCalling { name: v.name.clone() }),
        Expr::Decrement(v) => Expr::Decrement(VarCalling { name: v.name.clone() }),
        Expr::AddTo(m) => Expr::AddTo(copy_modifying(m)),
        Expr::SubtractTo(m) => Expr::SubtractTo(copy_modifying(m)),
        Expr::MultiplyTo(m) => Expr::MultiplyTo(copy_modifying(m)),
        Expr::DivideTo(m) => Expr::DivideTo(copy_modifying(m)),
        Expr::ModTo(m) => Expr::ModTo(copy_modifying(m)),
        Expr::Equals => Expr::Equals,
        Expr::BiggerThan => Expr::BiggerThan,
        Expr::BiggerOrEqual => Expr::BiggerOrEqual,
        Expr::SmallerThan => Expr::SmallerThan,
        Expr::SmallerOrEqual => Expr::SmallerOrEqual,
        Expr::Different => Expr::Different,
        Expr::OR => Expr::OR,
        Expr::AND => Expr::AND,
        Expr::NOT => Expr::NOT,
        Expr::Read => Expr::Read,
        Expr::Operations(o) => Expr::Operations(copy_ops(o)),
        Expr::VarCall(v) => Expr::VarCall(VarCalling { name: v.name.clone() }),
        Expr::FuncCall(f) => Expr::FuncCall(copy_func_call(f)),
        Expr::Internal(f) => Expr::Internal(copy_func_call(f)),
        Expr::VarAssign(a) => Expr::VarAssign(VarAssign { name: a.name.clone(), value: copy_ops(&a.value) }),
    }
}

fn copy_modifying(m: &ModifyingOperation) -> (r: ModifyingOperation)
    ensures
        r.name@ == m.name@,
        r.value@ == m.value@,
    decreases m, 0nat,
{
    ModifyingOperation { name: m.name.clone(), value: copy_ops(&m.value) }
}

fn copy_func_call(f: &FuncCall) -> (r: FuncCall)
    ensures
        r.name@ == f.name@,
        opss_view(r.arguments@) == opss_view(f.arguments@),
    decreases f, 0nat,
{
    FuncCall { name: f.name.clone(), arguments: copy_opss(&f.arguments) }
}

pub fn copy_ops(o: &ExprOperations) -> (r: ExprOperations)
    ensures
        r@ == o@,
    decreases o, 1nat,
{
    ExprOperations { instructions: copy_exprs(&o.instructions), is_bool: o.is_bool }
}

pub fn copy_exprs(v: &Vec<Expr>) -> (r: Vec<Expr>)
    ensures
        exprs_view(r@) == exprs_view(v@),
    decreases v, 2nat,
{
    let mut r: Vec<Expr> = Vec::new();
    let mut i: usize = 0;
    while i < v.len()
        invariant
            i <= v@.len(),
            exprs_view(r@) == exprs_view(v@.take(i as int)),
        decreases v@.len() - i,
    {
        proof {
            assert(decreases_to!(v => v@[i as int]));
        }
        let e = copy_expr(&v[i]);
        proof {
            lemma_exprs_view_push(r@, e);
            lemma_exprs_view_push(v@.take(i as int), v@[i as int]);
            assert(v@.take(i as int).push(v@[i as int]) =~= v@.take(i + 1));
        }
        r.push(e);
        i = i + 1;
    }
    assert(v@.take(i as int) =~= v@);
    r
}

pub fn copy_opss(v: &Vec<ExprOperations>) -> (r: Vec<ExprOperations>)
    ensures
        opss_view(r@) == opss_view(v@),
    decreases v, 3nat,
{
    let mut r: Vec<ExprOperations> = Vec::new();
    let mut i: usize = 0;
    while i < v.len()
        invariant
            i <= v@.len(),
            opss_view(r@) == opss_view(v@.take(i as int)),
        decreases v@.len() - i,
    {
        proof {
            assert(decreases_to!(v => v@[i as int]));
        }
        let e = copy_ops(&v[i]);
        proof {
            lemma_opss_view_push(r@, e);
            lemma_opss_view_push(v@.take(i as int), v@[i as int]);
            assert(v@.take(i as int).push(v@[i as int]) =~= v@.take(i + 1));
        }
        r.push(e);
        i = i + 1;
    }
    assert(v@.take(i as int) =~= v@);
    r
}

pub fn copy_names(v: &Vec<String>) -> (r: Vec<String>)
    ensures
        names_view(r@) == names_view(v@),
{
    let mut r: Vec<String> = Vec::new();
    let mut i: usize = 0;
    while i < v.len()
        invariant
            i <= v@.len(),
            names_view(r@) == names_view(v@.take(i as int)),
        decreases v@.len() - i,
    {
        let e = v[i].clone();
        proof {
            lemma_names_view_push(r@, e);
            lemma_names_view_push(v@.take(i as int), v@[i as int]);
            assert(v@.take(i as int).push(v@[i as int]) =~= v@.take(i + 1));
        }
        r.push(e);
        i = i + 1;
    }
    assert(v@.take(i as int) =~= v@);
    r
}

pub fn copy_stmt(s: &Stmt) -> (r: Stmt)
    ensures
        r@ == s@,
    decreases s, 0nat,
{
    match s {
        Stmt::Expression(e) => Stmt::Expression(copy_expr(e)),
        Stmt::Print(o) => Stmt::Print(copy_ops(o)),
        Stmt::Return(e) => Stmt::Return(copy_expr(e)),
        Stmt::Continue => Stmt::Continue,
        Stmt::Break => Stmt::Break,
        Stmt::Block(b) => Stmt::Block(copy_stmts(b)),
        Stmt::FuncAssign(f) => Stmt::FuncAssign(
            FuncAssign { name: f.name.clone(), arguments: copy_names(&f.arguments), body: copy_stmts(&f.body) },
        ),
        Stmt::If(i) => Stmt::If(
            If {
                condition: copy_exprs(&i.condition),
                condition_bool: i.condition_bool,
                if_then: copy_stmts(&i.if_then),
                elif_then: copy_elifs(&i.elif_then),
                else_then: copy_stmts(&i.else_then),
            },
        ),
        Stmt::ForLoop(f) => Stmt::ForLoop(
            ForLoop {
                init: copy_exprs(&f.init),
                condition: copy_exprs(&f.condition),
                is_bool: f.is_bool,
                increment: copy_exprs(&f.increment),
                body: copy_stmts(&f.body),
            },
        ),
        Stmt::WhileLoop(w) => Stmt::WhileLoop(
            WhileLoop { condition: copy_exprs(&w.condition), is_bool: w.is_bool, body: copy_stmts(&w.body) },
        ),
    }
}

pub fn copy_stmts(v: &Vec<Stmt>) -> (r: Vec<Stmt>)
    ensures
        stmts_view(r@) == stmts_view(v@),
    decreases v, 1nat,
{
    let mut r: Vec<Stmt> = Vec::new();
    let mut i: usize = 0;
    while i < v.len()
        invariant
            i <= v@.len(),
            stmts_view(r@) == stmts_view(v@.take(i as int)),
        decreases v@.len() - i,
    {
        proof {
            assert(decreases_to!(v => v@[i as int]));
        }
        let e = copy_stmt(&v[i]);
        proof {
            lemma_stmts_view_push(r@, e);
            lemma_stmts_view_push(v@.take(i as int), v@[i as int]);
            assert(v@.take(i as int).push(v@[i as int]) =~= v@.take(i + 1));
        }
        r.push(e);
        i = i + 1;
    }
    assert(v@.take(i as int) =~= v@);
    r
}

pub fn copy_elif(e: &Elif) -> (r: Elif)
    ensures
        r@ == e@,
    decreases e, 2nat,
{
    Elif { condition: copy_exprs(&e.condition), condition_bool: e.condition_bool, then_body: copy_stmts(&e.then_body) }
}

pub fn copy_elifs(v: &Vec<Elif>) -> (r: Vec<Elif>)
    ensures
        elifs_view(r@) == elifs_view(v@),
    decreases v, 3nat,
{
    let mut r: Vec<Elif> = Vec::new();
    let mut i: usize = 0;
    while i < v.len()
        invariant
            i <= v@.len(),
            elifs_view(r@) == elifs_view(v@.take(i as int)),
        decreases v@.len() - i,
    {
        proof {
            assert(decreases_to!(v => v@[i as int]));
        }
        let e = copy_elif(&v[i]);
        proof {
            lemma_elifs_view_push(r@, e);
            lemma_elifs_view_push(v@.take(i as int), v@[i as int]);
            assert(v@.take(i as int).push(v@[i as int]) =~= v@.take(i + 1));
        }
        r.push(e);
        i = i + 1;
    }
    assert(v@.take(i as int) =~= v@);
    r
}

// ---------------------------------------------------------------------------
// Clone, through the copies above
// ---------------------------------------------------------------------------

impl Clone for VarCalling {
    fn clone(&self) -> (r: Self)
        ensures
            r.name@ == self.name@,
    {
        VarCalling { name: self.name.clone() }
    }
}

impl Clone for Expr {
    fn clone(&self) -> (r: Self)
        ensures
            r@ == self@,
    {
        copy_expr(self)
    }
}

impl Clone for ExprOperations {
    fn clone(&self) -> (r: Self)
        ensures
            r@ == self@,
    {
        copy_ops(self)
    }
}

impl Clone for ModifyingOperation {
    fn clone(&self) -> (r: Self)
        ensures
            r.name@ == self.name@,
            r.value@ == self.value@,
    {
        copy_modifying(self)
    }
}

impl Clone for FuncCall {
    fn clone(&self) -> (r: Self)
        ensures
            r.name@ == self.name@,
            opss_view(r.arguments@) == opss_view(self.arguments@),
    {
        copy_func_call(self)
    }
}

impl Clone for VarAssign {
    fn clone(&self) -> (r: Self)
        ensures
            r.name@ == self.name@,
            r.value@ == self.value@,
    {
        VarAssign { name: self.name.clone(), value: copy_ops(&self.value) }
    }
}

impl Clone for ArrayCall {
    fn clone(&self) -> (r: Self)
        ensures
            r.name@ == self.name@,
            r.at@ == self.at@,
    {
        ArrayCall { name: self.name.clone(), at: copy_ops(&self.at) }
    }
}

impl Clone for ArrayCallMod {
    fn clone(&self) -> (r: Self)
        ensures
            r.name@ == self.name@,
            r.at@ == self.at@,
            r.new_value@ == self.new_value@,
    {
        ArrayCallMod { name: self.name.clone(), at: copy_ops(&self.at), new_value: copy_ops(&self.new_value) }
    }
}

impl Clone for Stmt {
    fn clone(&self) -> (r: Self)
        ensures
            r@ == self@,
    {
        copy_stmt(self)
    }
}

impl Clone for Elif {
    fn clone(&self) -> (r: Self)
        ensures
            r@ == self@,
    {
        copy_elif(self)
    }
}

impl Clone for FuncAssign {
    fn clone(&self) -> (r: Self)
        ensures
            r.name@ == self.name@,
            names_view(r.arguments@) == names_view(self.arguments@),
            stmts_view(r.body@) == stmts_view(self.body@),
    {
        FuncAssign { name: self.name.clone(), arguments: copy_names(&self.arguments), body: copy_stmts(&self.body) }
    }
}

impl Clone for If {
    fn clone(&self) -> (r: Self)
        ensures
            stmt_view(Stmt::If(r)) == stmt_view(Stmt::If(*self)),
    {
        If {
            condition: copy_exprs(&self.condition),
            condition_bool: self.condition_bool,
            if_then: copy_stmts(&self.if_then),
            elif_then: copy_elifs(&self.elif_then),
            else_then: copy_stmts(&self.else_then),
        }
    }
}

impl Clone for ForLoop {
    fn clone(&self) -> (r: Self)
        ensures
            stmt_view(Stmt::ForLoop(r)) == stmt_view(Stmt::ForLoop(*self)),
    {
        ForLoop {
            init: copy_exprs(&self.init),
            condition: copy_exprs(&self.condition),
            is_bool: self.is_bool,
            increment: copy_exprs(&self.increment),
            body: copy_stmts(&self.body),
        }
    }
}

impl Clone for WhileLoop {
    fn clone(&self) -> (r: Self)
        ensures
            stmt_view(Stmt::WhileLoop(r)) == stmt_view(Stmt::WhileLoop(*self)),
    {
        WhileLoop { condition: copy_exprs(&self.condition), is_bool: self.is_bool, body: copy_stmts(&self.body) }
    }
}

} // verus!
