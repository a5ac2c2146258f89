//! The syntax tree, held in an arena: expression and statement nodes live
//! in two indexed pools and refer to their children by index, preserving
//! the recursive shape without per-node heap ownership. A parser builds the
//! pools bottom-up, so every child index is smaller than its parent's own
//! index; that order is also what compilation recurses on.

use vstd::prelude::*;

verus! {

/// An arithmetic operator.
#[derive(Debug, Clone, Copy, PartialEq, Eq, Structural)]
pub enum BinOp {
    Add,
    Sub,
    Mul,
    Div,
}

/// A comparison operator.
#[derive(Debug, Clone, Copy, PartialEq, Eq, Structural)]
pub enum CompareOp {
    Greater,
    Less,
    Equal,
}

/// An expression node; child expressions are arena indices.
#[derive(Debug, Clone, PartialEq)]
pub enum Expr {
    Number(i64),
    Str(String),
    Variable(String),
    Binary { left: usize, op: BinOp, right: usize },
    Compare { left: usize, op: CompareOp, right: usize },
    Call { callee: String, args: Vec<usize> },
}

/// A statement node; child statements and expressions are arena indices.
#[derive(Debug, Clone, PartialEq)]
pub enum Stmt {
    /// Declares or assigns a variable: both forms store into the one flat
    /// global namespace.
    VarDecl { name: String, init: usize },
    /// An `if`; the else branch is modelled but its absence is the
    /// ordinary, fully supported case.
    If { condition: usize, then_branch: Vec<usize>, else_branch: Option<Vec<usize>> },
    While { condition: usize, body: Vec<usize> },
    Function { name: String, params: Vec<String>, body: Vec<usize> },
    Expression(usize),
}

/// A whole program: the two node pools and the top-level statement list.
#[derive(Debug, Clone)]
pub struct Program {
    pub exprs: Vec<Expr>,
    pub stmts: Vec<Stmt>,
    pub body: Vec<usize>,
}

/// Every child index of expression node `i` is smaller than `i` itself.
pub open spec fn expr_node_wf(e: Expr, i: int) -> bool {
    match e {
        Expr::Binary { left, op, right } => left < i && right < i,
        Expr::Compare { left, op, right } => left < i && right < i,
        Expr::Call { callee, args } => forall|j: int| 0 <= j < args@.len() ==> args@[j] < i,
        _ => true,
    }
}

/// Statement node `i` points only at existing expressions and at earlier
/// statement nodes.
pub open spec fn stmt_node_wf(s: Stmt, i: int, n_exprs: int) -> bool {
    match s {
        Stmt::VarDecl { name, init } => init < n_exprs,
        Stmt::If { condition, then_branch, else_branch } => {
            &&& condition < n_exprs
            &&& forall|j: int| 0 <= j < then_branch@.len() ==> then_branch@[j] < i
            &&& match else_branch {
                Some(eb) => forall|j: int| 0 <= j < eb@.len() ==> eb@[j] < i,
                None => true,
            }
        },
        Stmt::While { condition, body } => {
            &&& condition < n_exprs
            &&& forall|j: int| 0 <= j < body@.len() ==> body@[j] < i
        },
        Stmt::Function { name, params, body } => forall|j: int|
            0 <= j < body@.len() ==> body@[j] < i,
        Stmt::Expression(e) => e < n_exprs,
    }
}

/// A well-formed arena: children come before parents, and every index is
/// in range.
pub open spec fn program_wf(p: Program) -> bool {
    &&& forall|i: int|
        0 <= i < p.exprs@.len() ==> expr_node_wf(#[trigger] p.exprs@[i], i)
    &&& forall|i: int|
        0 <= i < p.stmts@.len() ==> stmt_node_wf(#[trigger] p.stmts@[i], i, p.exprs@.len() as int)
    &&& forall|j: int| 0 <= j < p.body@.len() ==> #[trigger] p.body@[j] < p.stmts@.len()
}

/// A statement node stays well-formed when the expression pool grows.
pub proof fn lemma_stmt_wf_mono(s: Stmt, i: int, n1: int, n2: int)
    requires
        stmt_node_wf(s, i, n1),
        n1 <= n2,
    ensures
        stmt_node_wf(s, i, n2),
{
}

impl Program {
    /// An empty program.
    pub fn new() -> (p: Program)
        ensures
            p.exprs@.len() == 0,
            p.stmts@.len() == 0,
            p.body@.len() == 0,
            program_wf(p),
    {
        Program { exprs: Vec::new(), stmts: Vec::new(), body: Vec::new() }
    }
}

} // verus!
