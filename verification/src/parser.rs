//! The parser: recursive descent over the token list, building the arena
//! program bottom-up, so every node's children sit at smaller indices than
//! the node itself — the shape the compiler's recursion and the arena's
//! well-formedness rest on. Statements are `tb` declarations, bare
//! assignments, `neu` (with an optional `neu_khong` branch), `lap`, `ham`
//! declarations, and expression statements; expressions are equality over
//! comparison over additive over multiplicative over call over primary.

use vstd::prelude::*;
use crate::ast::{expr_node_wf, program_wf, stmt_node_wf, BinOp, CompareOp, Expr, Program, Stmt};
use crate::error::VlError;
use crate::token::{Token, TokenType};

verus! {

/// Appends one expression node whose children are already in the arena.
fn push_expr(prog: &mut Program, e: Expr) -> (id: usize)
    requires
        program_wf(*old(prog)),
        expr_node_wf(e, old(prog).exprs@.len() as int),
    ensures
        program_wf(*final(prog)),
        id as int == old(prog).exprs@.len(),
        final(prog).exprs@ == old(prog).exprs@.push(e),
        final(prog).stmts@ == old(prog).stmts@,
        final(prog).body@ == old(prog).body@,
        (id as int) < final(prog).exprs@.len(),
{
    let id = prog.exprs.len();
    prog.exprs.push(e);
    proof {
        assert forall|i: int| 0 <= i < prog.exprs@.len() implies expr_node_wf(
            #[trigger] prog.exprs@[i],
            i,
        ) by {
            if i < old(prog).exprs@.len() {
                assert(prog.exprs@[i] == old(prog).exprs@[i]);
            }
        }
        assert forall|i: int| 0 <= i < prog.stmts@.len() implies stmt_node_wf(
            #[trigger] prog.stmts@[i],
            i,
            prog.exprs@.len() as int,
        ) by {
            crate::ast::lemma_stmt_wf_mono(
                prog.stmts@[i],
                i,
                old(prog).exprs@.len() as int,
                prog.exprs@.len() as int,
            );
        }
    }
    id
}

/// Appends one statement node whose children are already in the arena.
fn push_stmt(prog: &mut Program, s: Stmt) -> (id: usize)
    requires
        program_wf(*old(prog)),
        stmt_node_wf(s, old(prog).stmts@.len() as int, old(prog).exprs@.len() as int),
    ensures
        program_wf(*final(prog)),
        id as int == old(prog).stmts@.len(),
        final(prog).stmts@ == old(prog).stmts@.push(s),
        final(prog).exprs@ == old(prog).exprs@,
        final(prog).body@ == old(prog).body@,
        (id as int) < final(prog).stmts@.len(),
{
    let id = prog.stmts.len();
    prog.stmts.push(s);
    proof {
        assert forall|i: int| 0 <= i < prog.stmts@.len() implies stmt_node_wf(
            #[trigger] prog.stmts@[i],
            i,
            prog.exprs@.len() as int,
        ) by {
            if i < old(prog).stmts@.len() {
                assert(prog.stmts@[i] == old(prog).stmts@[i]);
            }
        }
    }
    id
}

/// Walks the token list once, producing a well-formed arena program.
pub struct Parser {
    tokens: Vec<Token>,
    pos: usize,
}

impl Parser {
    /// The cursor never leaves the token list.
    pub closed spec fn wf(&self) -> bool {
        self.pos <= self.tokens@.len()
    }

    /// The tokens being parsed.
    pub closed spec fn toks(&self) -> Seq<Token> {
        self.tokens@
    }

    /// The cursor: how many tokens have been consumed.
    pub closed spec fn at(&self) -> int {
        self.pos as int
    }

    /// A parser at the start of the given token list.
    pub fn new(tokens: Vec<Token>) -> (p: Parser)
        ensures
            p.wf(),
            p.at() == 0,
    {
        Parser { tokens, pos: 0 }
    }

    /// The kind under the cursor; `EOF` past the end.
    fn peek_kind(&self) -> (k: TokenType)
        requires
            self.wf(),
        ensures
            self.at() < self.toks().len() ==> k == self.toks()[self.at()].kind,
            self.at() == self.toks().len() ==> k == TokenType::EOF,
    {
        if self.pos < self.tokens.len() {
            self.tokens[self.pos].kind.duplicate()
        } else {
            TokenType::EOF
        }
    }

    /// The kind after the cursor; `EOF` past the end.
    fn peek_next_kind(&self) -> (k: TokenType)
        requires
            self.wf(),
    {
        let n = self.tokens.len();
        if self.pos < n && n - self.pos > 1 {
            self.tokens[self.pos + 1].kind.duplicate()
        } else {
            TokenType::EOF
        }
    }

    /// Consumes one token.
    fn advance(&mut self)
        requires
            old(self).wf(),
            old(self).at() < old(self).toks().len(),
        ensures
            final(self).wf(),
            final(self).toks() == old(self).toks(),
            final(self).at() == old(self).at() + 1,
    {
        let n = self.tokens.len();
        self.pos = self.pos + 1;
    }

    /// An error at the current token's position.
    fn error(&self, vi: &str, en: &str) -> (e: VlError)
        requires
            self.wf(),
    {
        if self.pos < self.tokens.len() {
            let t = &self.tokens[self.pos];
            VlError::new(vi, en, t.line, t.col)
        } else {
            VlError::new(vi, en, 0, 0)
        }
    }

    /// Consumes the expected opening brace or reports which brace is
    /// missing.
    fn expect_lbrace(&mut self) -> (r: Result<(), VlError>)
        requires
            old(self).wf(),
        ensures
            final(self).wf(),
            final(self).toks() == old(self).toks(),
            old(self).at() <= final(self).at(),
            r is Ok ==> final(self).at() == old(self).at() + 1,
    {
        match self.peek_kind() {
            TokenType::LBrace => {
                self.advance();
                Ok(())
            },
            _ => Err(self.error("Thieu dau {", "Missing {")),
        }
    }

    /// Consumes the expected closing parenthesis.
    fn expect_rparen(&mut self) -> (r: Result<(), VlError>)
        requires
            old(self).wf(),
        ensures
            final(self).wf(),
            final(self).toks() == old(self).toks(),
            old(self).at() <= final(self).at(),
            r is Ok ==> final(self).at() == old(self).at() + 1,
    {
        match self.peek_kind() {
            TokenType::RParen => {
                self.advance();
                Ok(())
            },
            _ => Err(self.error("Thieu dau )", "Missing )")),
        }
    }

    /// Parses a whole token list into a program; the one public entry
    /// point. Layout-mode headers may stand between top-level statements
    /// and are accepted and ignored. On success the program is a
    /// well-formed arena, the shape compilation requires.
    pub fn parse(&mut self) -> (r: Result<Program, VlError>)
        requires
            old(self).wf(),
        ensures
            final(self).wf(),
            match r {
                Ok(p) => program_wf(p) && (final(self).at() == final(self).toks().len()
                    || final(self).toks()[final(self).at()].kind is EOF),
                Err(_) => true,
            },
    {
        let mut prog = Program::new();
        while !self.is_at_end()
            invariant
                self.wf(),
                program_wf(prog),
            decreases self.toks().len() - self.at(),
        {
            let is_mode = matches!(
                self.peek_kind(),
                TokenType::ModeBrace | TokenType::ModeIndent | TokenType::ModeEnd
            );
            if is_mode {
                self.advance();
            } else {
                let sid = self.parse_stmt(&mut prog)?;
                prog.body.push(sid);
                proof {
                    assert forall|j: int|
                        0 <= j < prog.body@.len() implies #[trigger] prog.body@[j]
                        < prog.stmts@.len() by {
                    }
                }
            }
        }
        Ok(prog)
    }

    /// Whether the input is exhausted: past the end, or at the `EOF`
    /// token.
    fn is_at_end(&self) -> (r: bool)
        requires
            self.wf(),
        ensures
            !r ==> self.at() < self.toks().len() && !(self.toks()[self.at()].kind is EOF),
            r ==> self.at() == self.toks().len() || self.toks()[self.at()].kind is EOF,
    {
        if self.pos >= self.tokens.len() {
            true
        } else {
            matches!(&self.tokens[self.pos].kind, TokenType::EOF)
        }
    }

    /// Parses one statement.
    fn parse_stmt(&mut self, prog: &mut Program) -> (r: Result<usize, VlError>)
        requires
            old(self).wf(),
            program_wf(*old(prog)),
        ensures
            final(self).wf(),
            final(self).toks() == old(self).toks(),
            old(self).at() <= final(self).at(),
            program_wf(*final(prog)),
            old(prog).exprs@.len() <= final(prog).exprs@.len(),
            old(prog).stmts@.len() <= final(prog).stmts@.len(),
            final(prog).body@ == old(prog).body@,
            r matches Ok(sid) ==> {
                &&& (sid as int) < final(prog).stmts@.len()
                &&& old(self).at() < final(self).at()
                &&& sid as int == final(prog).stmts@.len() - 1
                &&& final(prog).stmts@.len() >= old(prog).stmts@.len() + 1
                &&& old(self).at() < old(self).toks().len()
                &&& (match old(self).toks()[old(self).at()].kind {
                    TokenType::Tb => final(prog).stmts@.last() is VarDecl,
                    TokenType::Neu => final(prog).stmts@.last() is If,
                    TokenType::Lap => final(prog).stmts@.last() is While,
                    TokenType::Ham => final(prog).stmts@.last() is Function,
                    _ => final(prog).stmts@.last() is Expression
                        || final(prog).stmts@.last() is VarDecl,
                })
            },
        decreases old(self).toks().len() - old(self).at(), 12int,
    {
        let k = self.peek_kind();
        match k {
            TokenType::Tb => self.var_decl(prog),
            TokenType::Neu => self.if_stmt(prog),
            TokenType::Lap => self.while_stmt(prog),
            TokenType::Ham => self.function_decl(prog),
            TokenType::Ident(_) => {
                let next_is_assign = matches!(self.peek_next_kind(), TokenType::Assign);
                if next_is_assign {
                    self.assignment(prog)
                } else {
                    self.expression_stmt(prog)
                }
            },
            TokenType::EOF => Err(self.error("Het chuong trinh bat ngo", "Unexpected end of input")),
            _ => self.expression_stmt(prog),
        }
    }

    /// `tb name = expr`: a declaration into the flat global namespace.
    fn var_decl(&mut self, prog: &mut Program) -> (r: Result<usize, VlError>)
        requires
            old(self).wf(),
            program_wf(*old(prog)),
            old(self).at() < old(self).toks().len(),
        ensures
            final(self).wf(),
            final(self).toks() == old(self).toks(),
            old(self).at() <= final(self).at(),
            program_wf(*final(prog)),
            old(prog).exprs@.len() <= final(prog).exprs@.len(),
            old(prog).stmts@.len() <= final(prog).stmts@.len(),
            final(prog).body@ == old(prog).body@,
            r matches Ok(sid) ==> {
                &&& (sid as int) < final(prog).stmts@.len()
                &&& sid as int == final(prog).stmts@.len() - 1
                &&& final(prog).stmts@.len() >= old(prog).stmts@.len() + 1
                &&& old(self).at() < final(self).at()
                &&& old(self).at() + 1 < old(self).toks().len()
                &&& (final(prog).stmts@.last() matches Stmt::VarDecl { name, init }
                    && old(self).toks()[old(self).at() + 1].kind matches TokenType::Ident(n2)
                    && name@ == n2@ && (init as int) < final(prog).exprs@.len())
            },
        decreases old(self).toks().len() - old(self).at(), 11int,
    {
        self.advance();  // tb
        let name = match self.peek_kind() {
            TokenType::Ident(n) => {
                self.advance();
                n
            },
            _ => {
                return Err(self.error("Thieu ten bien sau tb", "Missing variable name after tb"));
            },
        };
        // The sign is optional after `tb name`, a leniency kept from the
        // language as observed.
        let at_assign = matches!(self.peek_kind(), TokenType::Assign);
        if at_assign {
            self.advance();
        }
        let init = self.parse_expr(prog)?;
        Ok(push_stmt(prog, Stmt::VarDecl { name, init }))
    }

    /// `name = expr`: assignment is a store into the same namespace.
    fn assignment(&mut self, prog: &mut Program) -> (r: Result<usize, VlError>)
        requires
            old(self).wf(),
            program_wf(*old(prog)),
            old(self).at() < old(self).toks().len(),
        ensures
            final(self).wf(),
            final(self).toks() == old(self).toks(),
            old(self).at() <= final(self).at(),
            program_wf(*final(prog)),
            old(prog).exprs@.len() <= final(prog).exprs@.len(),
            old(prog).stmts@.len() <= final(prog).stmts@.len(),
            final(prog).body@ == old(prog).body@,
            r matches Ok(sid) ==> {
                &&& (sid as int) < final(prog).stmts@.len()
                &&& sid as int == final(prog).stmts@.len() - 1
                &&& final(prog).stmts@.len() >= old(prog).stmts@.len() + 1
                &&& old(self).at() < final(self).at()
                &&& old(self).at() < old(self).toks().len()
                &&& (final(prog).stmts@.last() matches Stmt::VarDecl { name, init }
                    && old(self).toks()[old(self).at()].kind matches TokenType::Ident(n2)
                    && name@ == n2@ && (init as int) < final(prog).exprs@.len())
            },
        decreases old(self).toks().len() - old(self).at(), 11int,
    {
        let name = match self.peek_kind() {
            TokenType::Ident(n) => {
                self.advance();
                n
            },
            _ => {
                return Err(self.error("Thieu ten bien", "Missing variable name"));
            },
        };
        match self.peek_kind() {
            TokenType::Assign => {
                self.advance();
            },
            _ => {
                return Err(self.error("Thieu dau =", "Missing ="));
            },
        }
        let init = self.parse_expr(prog)?;
        Ok(push_stmt(prog, Stmt::VarDecl { name, init }))
    }

    /// An expression in statement position.
    fn expression_stmt(&mut self, prog: &mut Program) -> (r: Result<usize, VlError>)
        requires
            old(self).wf(),
            program_wf(*old(prog)),
        ensures
            final(self).wf(),
            final(self).toks() == old(self).toks(),
            old(self).at() <= final(self).at(),
            program_wf(*final(prog)),
            old(prog).exprs@.len() <= final(prog).exprs@.len(),
            old(prog).stmts@.len() <= final(prog).stmts@.len(),
            final(prog).body@ == old(prog).body@,
            r matches Ok(sid) ==> {
                &&& (sid as int) < final(prog).stmts@.len()
                &&& sid as int == final(prog).stmts@.len() - 1
                &&& final(prog).stmts@.len() >= old(prog).stmts@.len() + 1
                &&& old(self).at() < final(self).at()
                &&& (final(prog).stmts@.last() matches Stmt::Expression(e) && (e as int)
                    < final(prog).exprs@.len())
            },
        decreases old(self).toks().len() - old(self).at(), 11int,
    {
        let e = self.parse_expr(prog)?;
        Ok(push_stmt(prog, Stmt::Expression(e)))
    }

    /// `neu cond { ... }`, optionally `neu_khong { ... }`.
    fn if_stmt(&mut self, prog: &mut Program) -> (r: Result<usize, VlError>)
        requires
            old(self).wf(),
            program_wf(*old(prog)),
            old(self).at() < old(self).toks().len(),
        ensures
            final(self).wf(),
            final(self).toks() == old(self).toks(),
            old(self).at() <= final(self).at(),
            program_wf(*final(prog)),
            old(prog).exprs@.len() <= final(prog).exprs@.len(),
            old(prog).stmts@.len() <= final(prog).stmts@.len(),
            final(prog).body@ == old(prog).body@,
            r matches Ok(sid) ==> {
                &&& (sid as int) < final(prog).stmts@.len()
                &&& sid as int == final(prog).stmts@.len() - 1
                &&& final(prog).stmts@.len() >= old(prog).stmts@.len() + 1
                &&& old(self).at() < final(self).at()
                &&& final(prog).stmts@.last() is If
            },
        decreases old(self).toks().len() - old(self).at(), 11int,
    {
        self.advance();  // neu
        let condition = self.parse_expr(prog)?;
        self.expect_lbrace()?;
        let then_branch = self.parse_block(prog)?;
        let has_else = matches!(self.peek_kind(), TokenType::NeuKhong);
        let else_branch = if has_else {
            self.advance();
            self.expect_lbrace()?;
            let eb = self.parse_block(prog)?;
            Some(eb)
        } else {
            None
        };
        Ok(push_stmt(prog, Stmt::If { condition, then_branch, else_branch }))
    }

    /// `lap cond { ... }`.
    fn while_stmt(&mut self, prog: &mut Program) -> (r: Result<usize, VlError>)
        requires
            old(self).wf(),
            program_wf(*old(prog)),
            old(self).at() < old(self).toks().len(),
        ensures
            final(self).wf(),
            final(self).toks() == old(self).toks(),
            old(self).at() <= final(self).at(),
            program_wf(*final(prog)),
            old(prog).exprs@.len() <= final(prog).exprs@.len(),
            old(prog).stmts@.len() <= final(prog).stmts@.len(),
            final(prog).body@ == old(prog).body@,
            r matches Ok(sid) ==> {
                &&& (sid as int) < final(prog).stmts@.len()
                &&& sid as int == final(prog).stmts@.len() - 1
                &&& final(prog).stmts@.len() >= old(prog).stmts@.len() + 1
                &&& old(self).at() < final(self).at()
                &&& final(prog).stmts@.last() is While
            },
        decreases old(self).toks().len() - old(self).at(), 11int,
    {
        self.advance();  // lap
        let condition = self.parse_expr(prog)?;
        self.expect_lbrace()?;
        let body = self.parse_block(prog)?;
        Ok(push_stmt(prog, Stmt::While { condition, body }))
    }

    /// `ham name(params) { ... }`: a function declaration, hoisted by the
    /// compiler.
    fn function_decl(&mut self, prog: &mut Program) -> (r: Result<usize, VlError>)
        requires
            old(self).wf(),
            program_wf(*old(prog)),
            old(self).at() < old(self).toks().len(),
        ensures
            final(self).wf(),
            final(self).toks() == old(self).toks(),
            old(self).at() <= final(self).at(),
            program_wf(*final(prog)),
            old(prog).exprs@.len() <= final(prog).exprs@.len(),
            old(prog).stmts@.len() <= final(prog).stmts@.len(),
            final(prog).body@ == old(prog).body@,
            r matches Ok(sid) ==> {
                &&& (sid as int) < final(prog).stmts@.len()
                &&& sid as int == final(prog).stmts@.len() - 1
                &&& final(prog).stmts@.len() >= old(prog).stmts@.len() + 1
                &&& old(self).at() < final(self).at()
                &&& old(self).at() + 1 < old(self).toks().len()
                &&& (final(prog).stmts@.last() matches Stmt::Function { name, params, body }
                    && old(self).toks()[old(self).at() + 1].kind matches TokenType::Ident(n2)
                    && name@ == n2@)
            },
        decreases old(self).toks().len() - old(self).at(), 11int,
    {
        self.advance();  // ham
        let name = match self.peek_kind() {
            TokenType::Ident(n) => {
                self.advance();
                n
            },
            _ => {
                return Err(self.error("Thieu ten ham", "Missing function name"));
            },
        };
        let mut params: Vec<String> = Vec::new();
        match self.peek_kind() {
            TokenType::LParen => {
                self.advance();
            },
            _ => {
                return Err(self.error("Thieu dau ( sau ten ham", "Missing ( after function name"));
            },
        }
        let at_close = matches!(self.peek_kind(), TokenType::RParen);
        if !at_close {
            let p0 = match self.peek_kind() {
                TokenType::Ident(n) => {
                    self.advance();
                    n
                },
                _ => {
                    return Err(self.error("Thieu ten tham so", "Missing parameter name"));
                },
            };
            params.push(p0);
            while matches!(self.peek_kind(), TokenType::Comma)
                invariant
                    self.wf(),
                    self.toks() == old(self).toks(),
                    old(self).at() < self.at(),
                    program_wf(*prog),
                    old(prog).exprs@.len() <= prog.exprs@.len(),
                    old(prog).stmts@.len() <= prog.stmts@.len(),
                    prog.body@ == old(prog).body@,
                decreases self.toks().len() - self.at(),
            {
                self.advance();
                let pn = match self.peek_kind() {
                    TokenType::Ident(n) => {
                        self.advance();
                        n
                    },
                    _ => {
                        return Err(self.error("Thieu ten tham so", "Missing parameter name"));
                    },
                };
                params.push(pn);
            }
        }
        self.expect_rparen()?;
        self.expect_lbrace()?;
        let body = self.parse_block(prog)?;
        Ok(push_stmt(prog, Stmt::Function { name, params, body }))
    }

    /// The statements of a `{ ... }` block, consuming the closing brace.
    fn parse_block(&mut self, prog: &mut Program) -> (r: Result<Vec<usize>, VlError>)
        requires
            old(self).wf(),
            program_wf(*old(prog)),
        ensures
            final(self).wf(),
            final(self).toks() == old(self).toks(),
            old(self).at() <= final(self).at(),
            program_wf(*final(prog)),
            old(prog).exprs@.len() <= final(prog).exprs@.len(),
            old(prog).stmts@.len() <= final(prog).stmts@.len(),
            final(prog).body@ == old(prog).body@,
            r matches Ok(ids) ==> (forall|j: int|
                0 <= j < ids@.len() ==> #[trigger] ids@[j] < final(prog).stmts@.len()),
        decreases old(self).toks().len() - old(self).at(), 13int,
    {
        let mut ids: Vec<usize> = Vec::new();
        while !matches!(self.peek_kind(), TokenType::RBrace)
            invariant
                self.wf(),
                self.toks() == old(self).toks(),
                old(self).at() <= self.at(),
                program_wf(*prog),
                old(prog).exprs@.len() <= prog.exprs@.len(),
                old(prog).stmts@.len() <= prog.stmts@.len(),
                prog.body@ == old(prog).body@,
                forall|j: int| 0 <= j < ids@.len() ==> #[trigger] ids@[j] < prog.stmts@.len(),
            decreases self.toks().len() - self.at(),
    {
            if self.is_at_end() {
                return Err(self.error("Thieu dau }", "Missing }"));
            }
            let sid = self.parse_stmt(prog)?;
            ids.push(sid);
        }
        self.advance();  // }
        Ok(ids)
    }

    /// A full expression.
    fn parse_expr(&mut self, prog: &mut Program) -> (r: Result<usize, VlError>)
        requires
            old(self).wf(),
            program_wf(*old(prog)),
        ensures
            final(self).wf(),
            final(self).toks() == old(self).toks(),
            old(self).at() <= final(self).at(),
            program_wf(*final(prog)),
            old(prog).exprs@.len() <= final(prog).exprs@.len(),
            final(prog).stmts@ == old(prog).stmts@,
            final(prog).body@ == old(prog).body@,
            r matches Ok(eid) ==> (eid as int) < final(prog).exprs@.len() && old(self).at()
                < final(self).at(),
        decreases old(self).toks().len() - old(self).at(), 10int,
    {
        self.equality(prog)
    }

    /// `comparison (== comparison)*`.
    fn equality(&mut self, prog: &mut Program) -> (r: Result<usize, VlError>)
        requires
            old(self).wf(),
            program_wf(*old(prog)),
        ensures
            final(self).wf(),
            final(self).toks() == old(self).toks(),
            old(self).at() <= final(self).at(),
            program_wf(*final(prog)),
            old(prog).exprs@.len() <= final(prog).exprs@.len(),
            final(prog).stmts@ == old(prog).stmts@,
            final(prog).body@ == old(prog).body@,
            r matches Ok(eid) ==> (eid as int) < final(prog).exprs@.len() && old(self).at()
                < final(self).at(),
        decreases old(self).toks().len() - old(self).at(), 9int,
    {
        let mut e = self.comparison(prog)?;
        while matches!(self.peek_kind(), TokenType::Eq)
            invariant
                self.wf(),
                self.toks() == old(self).toks(),
                old(self).at() < self.at(),
                program_wf(*prog),
                old(prog).exprs@.len() <= prog.exprs@.len(),
                prog.stmts@ == old(prog).stmts@,
                prog.body@ == old(prog).body@,
                (e as int) < prog.exprs@.len(),
            decreases self.toks().len() - self.at(),
        {
            self.advance();
            let right = self.comparison(prog)?;
            e = push_expr(prog, Expr::Compare { left: e, op: CompareOp::Equal, right });
        }
        Ok(e)
    }

    /// `term ((> | <) term)*`.
    fn comparison(&mut self, prog: &mut Program) -> (r: Result<usize, VlError>)
        requires
            old(self).wf(),
            program_wf(*old(prog)),
        ensures
            final(self).wf(),
            final(self).toks() == old(self).toks(),
            old(self).at() <= final(self).at(),
            program_wf(*final(prog)),
            old(prog).exprs@.len() <= final(prog).exprs@.len(),
            final(prog).stmts@ == old(prog).stmts@,
            final(prog).body@ == old(prog).body@,
            r matches Ok(eid) ==> (eid as int) < final(prog).exprs@.len() && old(self).at()
                < final(self).at(),
        decreases old(self).toks().len() - old(self).at(), 8int,
    {
        let mut e = self.term(prog)?;
        while matches!(self.peek_kind(), TokenType::Gt | TokenType::Lt)
            invariant
                self.wf(),
                self.toks() == old(self).toks(),
                old(self).at() < self.at(),
                program_wf(*prog),
                old(prog).exprs@.len() <= prog.exprs@.len(),
                prog.stmts@ == old(prog).stmts@,
                prog.body@ == old(prog).body@,
                (e as int) < prog.exprs@.len(),
            decreases self.toks().len() - self.at(),
        {
            let op = if matches!(self.peek_kind(), TokenType::Gt) {
                CompareOp::Greater
            } else {
                CompareOp::Less
            };
            self.advance();
            let right = self.term(prog)?;
            e = push_expr(prog, Expr::Compare { left: e, op, right });
        }
        Ok(e)
    }

    /// `factor ((+ | -) factor)*`.
    fn term(&mut self, prog: &mut Program) -> (r: Result<usize, VlError>)
        requires
            old(self).wf(),
            program_wf(*old(prog)),
        ensures
            final(self).wf(),
            final(self).toks() == old(self).toks(),
            old(self).at() <= final(self).at(),
            program_wf(*final(prog)),
            old(prog).exprs@.len() <= final(prog).exprs@.len(),
            final(prog).stmts@ == old(prog).stmts@,
            final(prog).body@ == old(prog).body@,
            r matches Ok(eid) ==> (eid as int) < final(prog).exprs@.len() && old(self).at()
                < final(self).at(),
        decreases old(self).toks().len() - old(self).at(), 7int,
    {
        let mut e = self.factor(prog)?;
        while matches!(self.peek_kind(), TokenType::Plus | TokenType::Minus)
            invariant
                self.wf(),
                self.toks() == old(self).toks(),
                old(self).at() < self.at(),
                program_wf(*prog),
                old(prog).exprs@.len() <= prog.exprs@.len(),
                prog.stmts@ == old(prog).stmts@,
                prog.body@ == old(prog).body@,
                (e as int) < prog.exprs@.len(),
            decreases self.toks().len() - self.at(),
        {
            let op = if matches!(self.peek_kind(), TokenType::Plus) {
                BinOp::Add
            } else {
                BinOp::Sub
            };
            self.advance();
            let right = self.factor(prog)?;
            e = push_expr(prog, Expr::Binary { left: e, op, right });
        }
        Ok(e)
    }

    /// `call ((* | /) call)*`.
    fn factor(&mut self, prog: &mut Program) -> (r: Result<usize, VlError>)
        requires
            old(self).wf(),
            program_wf(*old(prog)),
        ensures
            final(self).wf(),
            final(self).toks() == old(self).toks(),
            old(self).at() <= final(self).at(),
            program_wf(*final(prog)),
            old(prog).exprs@.len() <= final(prog).exprs@.len(),
            final(prog).stmts@ == old(prog).stmts@,
            final(prog).body@ == old(prog).body@,
            r matches Ok(eid) ==> (eid as int) < final(prog).exprs@.len() && old(self).at()
                < final(self).at(),
        decreases old(self).toks().len() - old(self).at(), 6int,
    {
        let mut e = self.call(prog)?;
        while matches!(self.peek_kind(), TokenType::Star | TokenType::Slash)
            invariant
                self.wf(),
                self.toks() == old(self).toks(),
                old(self).at() < self.at(),
                program_wf(*prog),
                old(prog).exprs@.len() <= prog.exprs@.len(),
                prog.stmts@ == old(prog).stmts@,
                prog.body@ == old(prog).body@,
                (e as int) < prog.exprs@.len(),
            decreases self.toks().len() - self.at(),
        {
            let op = if matches!(self.peek_kind(), TokenType::Star) {
                BinOp::Mul
            } else {
                BinOp::Div
            };
            self.advance();
            let right = self.call(prog)?;
            e = push_expr(prog, Expr::Binary { left: e, op, right });
        }
        Ok(e)
    }

    /// A primary expression with an optional call suffix; only a bare
    /// name can be called.
    fn call(&mut self, prog: &mut Program) -> (r: Result<usize, VlError>)
        requires
            old(self).wf(),
            program_wf(*old(prog)),
        ensures
            final(self).wf(),
            final(self).toks() == old(self).toks(),
            old(self).at() <= final(self).at(),
            program_wf(*final(prog)),
            old(prog).exprs@.len() <= final(prog).exprs@.len(),
            final(prog).stmts@ == old(prog).stmts@,
            final(prog).body@ == old(prog).body@,
            r matches Ok(eid) ==> (eid as int) < final(prog).exprs@.len() && old(self).at()
                < final(self).at(),
        decreases old(self).toks().len() - old(self).at(), 5int,
    {
        let e = self.primary(prog)?;
        let at_call = matches!(self.peek_kind(), TokenType::LParen);
        if !at_call {
            return Ok(e);
        }
        let callee = match &prog.exprs[e] {
            Expr::Variable(n) => n.clone(),
            _ => {
                return Ok(e);
            },
        };
        self.advance();  // (
        let mut args: Vec<usize> = Vec::new();
        let at_close = matches!(self.peek_kind(), TokenType::RParen);
        if !at_close {
            let a0 = self.parse_expr(prog)?;
            args.push(a0);
            while matches!(self.peek_kind(), TokenType::Comma)
                invariant
                    self.wf(),
                    self.toks() == old(self).toks(),
                    old(self).at() < self.at(),
                    program_wf(*prog),
                    old(prog).exprs@.len() <= prog.exprs@.len(),
                    prog.stmts@ == old(prog).stmts@,
                    prog.body@ == old(prog).body@,
                    forall|j: int| 0 <= j < args@.len() ==> #[trigger] args@[j] < prog.exprs@.len(),
                decreases self.toks().len() - self.at(),
            {
                self.advance();
                let a = self.parse_expr(prog)?;
                args.push(a);
            }
        }
        self.expect_rparen()?;
        Ok(push_expr(prog, Expr::Call { callee, args }))
    }

    /// A literal, a name, a boolean keyword, or a parenthesised
    /// expression.
    fn primary(&mut self, prog: &mut Program) -> (r: Result<usize, VlError>)
        requires
            old(self).wf(),
            program_wf(*old(prog)),
        ensures
            final(self).wf(),
            final(self).toks() == old(self).toks(),
            old(self).at() <= final(self).at(),
            program_wf(*final(prog)),
            old(prog).exprs@.len() <= final(prog).exprs@.len(),
            final(prog).stmts@ == old(prog).stmts@,
            final(prog).body@ == old(prog).body@,
            r matches Ok(eid) ==> {
                &&& (eid as int) < final(prog).exprs@.len()
                &&& old(self).at() < final(self).at()
                &&& old(self).at() < old(self).toks().len()
                &&& (match old(self).toks()[old(self).at()].kind {
                    TokenType::Int(v) => final(prog).exprs@ == old(prog).exprs@.push(
                        Expr::Number(v),
                    ) && eid as int == old(prog).exprs@.len(),
                    TokenType::Str(sv) => (final(prog).exprs@.last() matches Expr::Str(s2)
                        && s2@ == sv@) && final(prog).exprs@.len() == old(prog).exprs@.len() + 1
                        && eid as int == old(prog).exprs@.len(),
                    TokenType::Ident(nv) => (final(prog).exprs@.last() matches Expr::Variable(n2)
                        && n2@ == nv@) && final(prog).exprs@.len() == old(prog).exprs@.len() + 1
                        && eid as int == old(prog).exprs@.len(),
                    TokenType::Dung => final(prog).exprs@ == old(prog).exprs@.push(
                        Expr::Number(1),
                    ) && eid as int == old(prog).exprs@.len(),
                    TokenType::Sai => final(prog).exprs@ == old(prog).exprs@.push(
                        Expr::Number(0),
                    ) && eid as int == old(prog).exprs@.len(),
                    TokenType::LParen => true,
                    _ => false,
                })
            },
        decreases old(self).toks().len() - old(self).at(), 4int,
    {
        match self.peek_kind() {
            TokenType::Int(v) => {
                self.advance();
                Ok(push_expr(prog, Expr::Number(v)))
            },
            TokenType::Str(s) => {
                self.advance();
                Ok(push_expr(prog, Expr::Str(s)))
            },
            TokenType::Ident(n) => {
                self.advance();
                Ok(push_expr(prog, Expr::Variable(n)))
            },
            TokenType::Dung => {
                self.advance();
                Ok(push_expr(prog, Expr::Number(1)))
            },
            TokenType::Sai => {
                self.advance();
                Ok(push_expr(prog, Expr::Number(0)))
            },
            TokenType::LParen => {
                self.advance();
                let e = self.parse_expr(prog)?;
                self.expect_rparen()?;
                Ok(e)
            },
            _ => Err(self.error("Bieu thuc khong hop le", "Invalid expression")),
        }
    }
}

} // verus!
