//! The syntax tree: expressions, statements, programs, and the reader's errors.
//!
//! Each executable type has a view made of plain mathematical values, and the
//! contracts of the whole crate speak of those views.

use vstd::prelude::*;
use vstd::string::*;

verus! {

/// The mathematical value of an [`Expr`].
pub enum ExprView {
    Int(i32),
    Var(Seq<char>),
    BinOp(Seq<char>, Box<ExprView>, Box<ExprView>),
}

/// The mathematical value of a [`Stmt`].
pub enum StmtView {
    Assign(Seq<char>, ExprView),
    If(ExprView, Seq<StmtView>, Seq<StmtView>),
    While(ExprView, Seq<StmtView>),
    Block(Seq<StmtView>),
}

/// The mathematical value of a [`ParseError`].
pub enum ParseErrorView {
    InvalidAssignment(Seq<char>),
    InvalidNumber(Seq<char>),
}

/// An expression. The operator of a binary operation is an uninterpreted
/// symbol: expressions are represented, never evaluated.
#[derive(Debug, PartialEq, Eq)]
pub enum Expr {
    Int(i32),
    Var(String),
    BinOp(String, Box<Expr>, Box<Expr>),
}

/// A statement. Branches and bodies keep their statements in source order.
#[derive(Debug, PartialEq, Eq)]
pub enum Stmt {
    Assign(String, Expr),
    If(Expr, Vec<Stmt>, Vec<Stmt>),
    While(Expr, Vec<Stmt>),
    Block(Vec<Stmt>),
}

/// An ordered sequence of top-level statements. It is made once, from its
/// statements, and only read thereafter.
#[derive(Debug, PartialEq, Eq)]
pub struct Program {
    stmts: Vec<Stmt>,
}

/// Why a text could not be read. Callers branch on the variant; the message
/// embeds the offending line.
#[derive(Clone, Debug, PartialEq, Eq)]
pub enum ParseError {
    InvalidAssignment(String),
    InvalidNumber(String),
}

/// The value of an expression.
pub open spec fn expr_view(e: Expr) -> ExprView
    decreases e,
{
    match e {
        Expr::Int(value) => ExprView::Int(value),
        Expr::Var(name) => ExprView::Var(name@),
        Expr::BinOp(op, left, right) => ExprView::BinOp(
            op@,
            Box::new(expr_view(*left)),
            Box::new(expr_view(*right)),
        ),
    }
}

/// The value of a statement.
pub open spec fn stmt_view(s: Stmt) -> StmtView
    decreases s,
{
    match s {
        Stmt::Assign(target, value) => StmtView::Assign(target@, expr_view(value)),
        Stmt::If(cond, then_branch, else_branch) => StmtView::If(
            expr_view(cond),
            stmt_views(then_branch@),
            stmt_views(else_branch@),
        ),
        Stmt::While(cond, body) => StmtView::While(expr_view(cond), stmt_views(body@)),
        Stmt::Block(stmts) => StmtView::Block(stmt_views(stmts@)),
    }
}

/// The values of a sequence of statements, in the same order.
pub open spec fn stmt_views(stmts: Seq<Stmt>) -> Seq<StmtView>
    decreases stmts,
{
    Seq::new(
        stmts.len(),
        |i: int|
            if 0 <= i < stmts.len() {
                stmt_view(stmts[i])
            } else {
                arbitrary()
            },
    )
}

impl View for Expr {
    type V = ExprView;

    open spec fn view(&self) -> ExprView {
        expr_view(*self)
    }
}

impl View for Stmt {
    type V = StmtView;

    open spec fn view(&self) -> StmtView {
        stmt_view(*self)
    }
}

impl View for Program {
    type V = Seq<StmtView>;

    closed spec fn view(&self) -> Seq<StmtView> {
        stmt_views(self.stmts@)
    }
}

impl View for ParseError {
    type V = ParseErrorView;

    open spec fn view(&self) -> ParseErrorView {
        match self {
            ParseError::InvalidAssignment(message) => ParseErrorView::InvalidAssignment(message@),
            ParseError::InvalidNumber(message) => ParseErrorView::InvalidNumber(message@),
        }
    }
}

/// Whether every binary operation in `e` has an operator that is not empty.
pub open spec fn expr_well_formed(e: ExprView) -> bool
    decreases e,
{
    match e {
        ExprView::Int(_) => true,
        ExprView::Var(_) => true,
        ExprView::BinOp(op, left, right) => op.len() > 0 && expr_well_formed(*left)
            && expr_well_formed(*right),
    }
}

/// Whether every expression in `s` is well formed.
pub open spec fn stmt_well_formed(s: StmtView) -> bool
    decreases s,
{
    match s {
        StmtView::Assign(_, value) => expr_well_formed(value),
        StmtView::If(cond, then_branch, else_branch) => expr_well_formed(cond) && (forall|i: int|
            0 <= i < then_branch.len() ==> stmt_well_formed(#[trigger] then_branch[i])) && (forall|
            i: int,
        | 0 <= i < else_branch.len() ==> stmt_well_formed(#[trigger] else_branch[i])),
        StmtView::While(cond, body) => expr_well_formed(cond) && (forall|i: int|
            0 <= i < body.len() ==> stmt_well_formed(#[trigger] body[i])),
        StmtView::Block(stmts) => forall|i: int|
            0 <= i < stmts.len() ==> stmt_well_formed(#[trigger] stmts[i]),
    }
}

/// Whether every statement of `stmts` is well formed.
pub open spec fn stmts_well_formed(stmts: Seq<StmtView>) -> bool {
    forall|i: int| 0 <= i < stmts.len() ==> stmt_well_formed(#[trigger] stmts[i])
}

impl Expr {
    /// The integer literal `value`.
    pub fn integer(value: i32) -> (e: Expr)
        ensures
            e@ == ExprView::Int(value),
            expr_well_formed(e@),
    {
        Expr::Int(value)
    }

    /// A reference to the variable `name`.
    pub fn variable(name: &str) -> (e: Expr)
        ensures
            e@ == ExprView::Var(name@),
            expr_well_formed(e@),
    {
        Expr::Var(String::from_str(name))
    }

    /// The binary operation `left op right`. The operator is a symbol that
    /// is not empty.
    pub fn binary(op: &str, left: Expr, right: Expr) -> (e: Expr)
        requires
            op@.len() > 0,
        ensures
            e@ == ExprView::BinOp(op@, Box::new(left@), Box::new(right@)),
            expr_well_formed(left@) && expr_well_formed(right@) ==> expr_well_formed(e@),
    {
        Expr::BinOp(String::from_str(op), Box::new(left), Box::new(right))
    }
}

impl Stmt {
    /// The assignment of `value` to the variable `target`.
    pub fn assign(target: &str, value: Expr) -> (s: Stmt)
        ensures
            s@ == StmtView::Assign(target@, value@),
            expr_well_formed(value@) ==> stmt_well_formed(s@),
    {
        Stmt::Assign(String::from_str(target), value)
    }

    /// The conditional with the two branches given.
    pub fn conditional(cond: Expr, then_branch: Vec<Stmt>, else_branch: Vec<Stmt>) -> (s: Stmt)
        ensures
            s@ == StmtView::If(cond@, stmt_views(then_branch@), stmt_views(else_branch@)),
            expr_well_formed(cond@) && stmts_well_formed(stmt_views(then_branch@))
                && stmts_well_formed(stmt_views(else_branch@)) ==> stmt_well_formed(s@),
    {
        Stmt::If(cond, then_branch, else_branch)
    }

    /// The loop that runs `body` while `cond` holds.
    pub fn while_loop(cond: Expr, body: Vec<Stmt>) -> (s: Stmt)
        ensures
            s@ == StmtView::While(cond@, stmt_views(body@)),
            expr_well_formed(cond@) && stmts_well_formed(stmt_views(body@)) ==> stmt_well_formed(
                s@,
            ),
    {
        Stmt::While(cond, body)
    }

    /// The block of the statements `stmts`.
    pub fn block(stmts: Vec<Stmt>) -> (s: Stmt)
        ensures
            s@ == StmtView::Block(stmt_views(stmts@)),
            stmts_well_formed(stmt_views(stmts@)) ==> stmt_well_formed(s@),
    {
        Stmt::Block(stmts)
    }
}

impl Program {
    /// The program of the statements `stmts`, in their order.
    pub fn new(stmts: Vec<Stmt>) -> (p: Program)
        ensures
            p@ == stmt_views(stmts@),
    {
        Program { stmts }
    }

    /// The statements of the program, in their order.
    pub fn statements(&self) -> (stmts: &Vec<Stmt>)
        ensures
            stmt_views(stmts@) == self@,
    {
        &self.stmts
    }

    /// Whether the two programs are the same tree.
    pub fn same_as(&self, other: &Program) -> (same: bool)
        ensures
            same == (self@ == other@),
    {
        same_stmts(&self.stmts, &other.stmts)
    }

    /// The number of top-level statements.
    pub fn len(&self) -> (n: usize)
        ensures
            n == self@.len(),
    {
        self.stmts.len()
    }
}

impl ParseError {
    /// The message of the failure, which holds the offending line.
    pub fn message(&self) -> (m: &str)
        ensures
            m@ == match self@ {
                ParseErrorView::InvalidAssignment(text) => text,
                ParseErrorView::InvalidNumber(text) => text,
            },
    {
        match self {
            ParseError::InvalidAssignment(message) => message.as_str(),
            ParseError::InvalidNumber(message) => message.as_str(),
        }
    }
}

/// A copy of the expression `e`.
pub fn clone_expr(e: &Expr) -> (copy: Expr)
    ensures
        copy@ == e@,
    decreases e,
{
    match e {
        Expr::Int(value) => Expr::Int(*value),
        Expr::Var(name) => Expr::Var(name.clone()),
        Expr::BinOp(op, left, right) => Expr::BinOp(
            op.clone(),
            Box::new(clone_expr(left)),
            Box::new(clone_expr(right)),
        ),
    }
}

/// A copy of the statement `s`.
pub fn clone_stmt(s: &Stmt) -> (copy: Stmt)
    ensures
        copy@ == s@,
    decreases s, 0int,
{
    match s {
        Stmt::Assign(target, value) => Stmt::Assign(target.clone(), clone_expr(value)),
        Stmt::If(cond, then_branch, else_branch) => Stmt::If(
            clone_expr(cond),
            clone_stmts(then_branch),
            clone_stmts(else_branch),
        ),
        Stmt::While(cond, body) => Stmt::While(clone_expr(cond), clone_stmts(body)),
        Stmt::Block(stmts) => Stmt::Block(clone_stmts(stmts)),
    }
}

/// A copy of the statements `stmts`, in their order.
pub fn clone_stmts(stmts: &Vec<Stmt>) -> (copy: Vec<Stmt>)
    ensures
        stmt_views(copy@) == stmt_views(stmts@),
    decreases stmts, 1int,
{
    let mut copy: Vec<Stmt> = Vec::new();
    let mut i: usize = 0;
    while i < stmts.len()
        invariant
            i <= stmts.len(),
            copy.len() == i,
            forall|j: int| 0 <= j < i ==> stmt_view(copy[j]) == stmt_view(stmts[j]),
        decreases stmts.len() - i,
    {
        copy.push(clone_stmt(&stmts[i]));
        i += 1;
    }
    assert(stmt_views(copy@) =~= stmt_views(stmts@));
    copy
}

/// Whether the expressions `a` and `b` are the same tree.
pub fn same_expr(a: &Expr, b: &Expr) -> (same: bool)
    ensures
        same == (a@ == b@),
    decreases a,
{
    match (a, b) {
        (Expr::Int(x), Expr::Int(y)) => *x == *y,
        (Expr::Var(x), Expr::Var(y)) => *x == *y,
        (Expr::BinOp(op_a, left_a, right_a), Expr::BinOp(op_b, left_b, right_b)) => {
            *op_a == *op_b && same_expr(left_a, left_b) && same_expr(right_a, right_b)
        },
        _ => false,
    }
}

/// Whether the statements `a` and `b` are the same tree.
pub fn same_stmt(a: &Stmt, b: &Stmt) -> (same: bool)
    ensures
        same == (a@ == b@),
    decreases a, 0int,
{
    match (a, b) {
        (Stmt::Assign(target_a, value_a), Stmt::Assign(target_b, value_b)) => {
            *target_a == *target_b && same_expr(value_a, value_b)
        },
        (Stmt::If(cond_a, then_a, else_a), Stmt::If(cond_b, then_b, else_b)) => {
            same_expr(cond_a, cond_b) && same_stmts(then_a, then_b) && same_stmts(else_a, else_b)
        },
        (Stmt::While(cond_a, body_a), Stmt::While(cond_b, body_b)) => {
            same_expr(cond_a, cond_b) && same_stmts(body_a, body_b)
        },
        (Stmt::Block(stmts_a), Stmt::Block(stmts_b)) => same_stmts(stmts_a, stmts_b),
        _ => false,
    }
}

/// Whether `a` and `b` hold the same statements in the same order.
pub fn same_stmts(a: &Vec<Stmt>, b: &Vec<Stmt>) -> (same: bool)
    ensures
        same == (stmt_views(a@) == stmt_views(b@)),
    decreases a, 1int,
{
    if a.len() != b.len() {
        assert(stmt_views(a@).len() != stmt_views(b@).len());
        return false;
    }
    let mut i: usize = 0;
    while i < a.len()
        invariant
            i <= a.len() == b.len(),
            forall|j: int| 0 <= j < i ==> stmt_view(a[j]) == stmt_view(b[j]),
        decreases a.len() - i,
    {
        if !same_stmt(&a[i], &b[i]) {
            assert(stmt_views(a@)[i as int] != stmt_views(b@)[i as int]);
            return false;
        }
        i += 1;
    }
    assert(stmt_views(a@) =~= stmt_views(b@));
    true
}

impl Clone for Expr {
    fn clone(&self) -> (copy: Self)
        ensures
            copy@ == self@,
    {
        clone_expr(self)
    }
}

impl Clone for Stmt {
    fn clone(&self) -> (copy: Self)
        ensures
            copy@ == self@,
    {
        clone_stmt(self)
    }
}

impl Clone for Program {
    fn clone(&self) -> (copy: Self)
        ensures
            copy@ == self@,
    {
        Program { stmts: clone_stmts(&self.stmts) }
    }
}

} // verus!
