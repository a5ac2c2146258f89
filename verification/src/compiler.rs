//! The compiler: one walk over the syntax arena, emitting instructions
//! into a chunk, allocating constants and names, and resolving forward
//! jumps by a patch-after-emit protocol. Jump operands are 16-bit absolute
//! target addresses, big-endian; constant and name operands are one byte,
//! so each pool holds at most 256 entries, and running out of either —
//! or out of 16-bit address space — is the one fatal compile error.

use vstd::prelude::*;
use vstd::pervasive::VecAdditionalExecFns;
use vstd::string::*;
use crate::ast::{expr_node_wf, program_wf, stmt_node_wf, BinOp, CompareOp, Expr, Program, Stmt};
use crate::chunk::{chunk_wf, opcode_byte_spec, Chunk, ChunkView, OpCode};
use crate::error::CompilerError;
use crate::num::Num;
use crate::value::{value_wf, Value, ValueView};

verus! {

/// No two names in the pool are the same text; a name's pool index is
/// therefore one-to-one with the name itself.
pub open spec fn names_unique(names: Seq<Seq<char>>) -> bool {
    forall|i: int, j: int| 0 <= i < j < names.len() ==> names[i] != names[j]
}

/// What the compiler keeps true of the chunk it is building: well-formed
/// constants, both pools inside the one-byte index space, and a
/// duplicate-free name pool.
pub open spec fn compiler_inv(c: ChunkView) -> bool {
    &&& chunk_wf(c)
    &&& c.constants.len() <= 256
    &&& c.names.len() <= 256
    &&& names_unique(c.names)
}

/// The index a name resolves to in the pool: its first occurrence, or
/// the pool's length when it is absent.
pub open spec fn name_index(names: Seq<Seq<char>>, name: Seq<char>) -> int
    decreases names.len(),
{
    if names.len() == 0 {
        0
    } else if names[0] == name {
        0
    } else {
        1 + name_index(names.skip(1), name)
    }
}

pub proof fn lemma_name_index(names: Seq<Seq<char>>, name: Seq<char>)
    ensures
        0 <= name_index(names, name) <= names.len(),
        name_index(names, name) < names.len() ==> names[name_index(names, name)] == name,
        forall|j: int| 0 <= j < name_index(names, name) ==> names[j] != name,
    decreases names.len(),
{
    if names.len() > 0 && names[0] != name {
        lemma_name_index(names.skip(1), name);
        assert forall|j: int| 0 <= j < name_index(names, name) implies names[j] != name by {
            if j > 0 {
                assert(names[j] == names.skip(1)[j - 1]);
            }
        }
    }
}

/// In a duplicate-free pool, any slot holding the name is its index.
pub proof fn lemma_name_index_unique(names: Seq<Seq<char>>, name: Seq<char>, idx: int)
    requires
        names_unique(names),
        0 <= idx < names.len(),
        names[idx] == name,
    ensures
        name_index(names, name) == idx,
{
    lemma_name_index(names, name);
}

/// The pool's state and the index handed out for a name: reuse the
/// existing slot, append when there is room, fail when there is none.
pub open spec fn get_name_spec(st: ChunkView, name: Seq<char>) -> Option<(ChunkView, u8)> {
    let i = name_index(st.names, name);
    if i < st.names.len() {
        Some((st, i as u8))
    } else if st.names.len() >= 256 {
        None
    } else {
        Some(
            (
                ChunkView { names: st.names.push(name), ..st },
                st.names.len() as u8,
            ),
        )
    }
}

/// The pool's state and the index handed out for a constant: always
/// appended, failing only when the pool is full.
pub open spec fn add_const_spec(st: ChunkView, v: ValueView) -> Option<(ChunkView, u8)> {
    if st.constants.len() >= 256 {
        None
    } else {
        Some(
            (
                ChunkView { constants: st.constants.push(v), ..st },
                st.constants.len() as u8,
            ),
        )
    }
}

/// One emitted opcode byte.
pub open spec fn emit1(st: ChunkView, op: OpCode) -> ChunkView {
    ChunkView { code: st.code.push(opcode_byte_spec(op)), ..st }
}

/// An emitted opcode byte with its one-byte operand.
pub open spec fn emit2(st: ChunkView, op: OpCode, operand: u8) -> ChunkView {
    ChunkView { code: st.code.push(opcode_byte_spec(op)).push(operand), ..st }
}

/// A two-byte placeholder emitted after a jump opcode.
pub open spec fn emit_hole(st: ChunkView) -> ChunkView {
    ChunkView { code: st.code.push(0).push(0), ..st }
}

/// A 16-bit absolute target written over a placeholder, high byte first.
pub open spec fn patch_spec(st: ChunkView, at: int, target: int) -> ChunkView {
    ChunkView {
        code: st.code.update(at, (target / 256) as u8).update(at + 1, (target % 256) as u8),
        ..st
    }
}

/// The opcode an arithmetic operator compiles to.
pub open spec fn binop_opcode(op: BinOp) -> OpCode {
    match op {
        BinOp::Add => OpCode::Add,
        BinOp::Sub => OpCode::Sub,
        BinOp::Mul => OpCode::Mul,
        BinOp::Div => OpCode::Div,
    }
}

/// The opcode a comparison operator compiles to.
pub open spec fn cmpop_opcode(op: CompareOp) -> OpCode {
    match op {
        CompareOp::Greater => OpCode::Gt,
        CompareOp::Less => OpCode::Lt,
        CompareOp::Equal => OpCode::Eq,
    }
}

/// The fixed, closed builtin table: the dedicated opcode a callee name
/// compiles to, or `None` for a dynamic call.
pub open spec fn builtin_opcode_spec(name: Seq<char>) -> Option<OpCode> {
    if name == "in"@ {
        Some(OpCode::Print)
    } else if name == "in_dong"@ {
        Some(OpCode::PrintRaw)
    } else if name == "ngaunhien"@ {
        Some(OpCode::Random)
    } else if name == "ngu"@ {
        Some(OpCode::Sleep)
    } else if name == "xoa"@ {
        Some(OpCode::Clear)
    } else if name == "nhap"@ {
        Some(OpCode::ReadLine)
    } else if name == "doc_file"@ {
        Some(OpCode::ReadFile)
    } else if name == "ghi_file"@ {
        Some(OpCode::WriteFile)
    } else {
        None
    }
}

/// Whether a callee is a builtin that pushes a value, so a call to it in
/// statement position needs a trailing pop.
pub open spec fn builtin_pushes_value_spec(name: Seq<char>) -> bool {
    name == "ngaunhien"@ || name == "nhap"@ || name == "doc_file"@
}

/// Whether an expression in statement position leaves a value on the
/// stack.
pub open spec fn expr_leaves_value_spec(p: Program, eid: int) -> bool {
    match p.exprs@[eid] {
        Expr::Call { callee, args } => builtin_pushes_value_spec(callee@),
        _ => true,
    }
}

/// The code, constant pool and name pool an expression compiles to, from
/// the given chunk state; `None` is the fatal pool-overflow error. This
/// is the emission protocol of the executable compiler, stated once and
/// proved against it arm for arm.
pub open spec fn compile_expr_spec(p: Program, eid: int, st: ChunkView) -> Option<ChunkView>
    decreases eid, 1int, 0int,
        when program_wf(p) && 0 <= eid < p.exprs@.len()
{
    match p.exprs@[eid] {
        Expr::Number(v) => match add_const_spec(
            st,
            ValueView::Number(crate::num::num_from_int_spec(v as int)),
        ) {
            None => None,
            Some((st1, idx)) => Some(emit2(st1, OpCode::LoadConst, idx)),
        },
        Expr::Str(s) => match add_const_spec(st, ValueView::Str(s@)) {
            None => None,
            Some((st1, idx)) => Some(emit2(st1, OpCode::LoadConst, idx)),
        },
        Expr::Variable(name) => match get_name_spec(st, name@) {
            None => None,
            Some((st1, idx)) => Some(emit2(st1, OpCode::LoadGlobal, idx)),
        },
        Expr::Binary { left, op, right } => match compile_expr_spec(p, left as int, st) {
            None => None,
            Some(st1) => match compile_expr_spec(p, right as int, st1) {
                None => None,
                Some(st2) => Some(emit1(st2, binop_opcode(op))),
            },
        },
        Expr::Compare { left, op, right } => match compile_expr_spec(p, left as int, st) {
            None => None,
            Some(st1) => match compile_expr_spec(p, right as int, st1) {
                None => None,
                Some(st2) => Some(emit1(st2, cmpop_opcode(op))),
            },
        },
        Expr::Call { callee, args } => match compile_args_spec(p, args@, eid, st) {
            None => None,
            Some(st1) => match builtin_opcode_spec(callee@) {
                Some(op) => Some(emit1(st1, op)),
                None => match get_name_spec(st1, callee@) {
                    None => None,
                    Some((st2, idx)) => Some(emit2(st2, OpCode::Call, idx)),
                },
            },
        },
    }
}

/// The arguments of a call, compiled left to right.
pub open spec fn compile_args_spec(
    p: Program,
    args: Seq<usize>,
    bound: int,
    st: ChunkView,
) -> Option<ChunkView>
    decreases bound, 0int, args.len(),
        when program_wf(p) && 0 <= bound <= p.exprs@.len() && (forall|j: int|
            0 <= j < args.len() ==> #[trigger] args[j] < bound)
{
    if args.len() == 0 {
        Some(st)
    } else {
        match compile_expr_spec(p, args[0] as int, st) {
            None => None,
            Some(st1) => compile_args_spec(p, args.skip(1), bound, st1),
        }
    }
}

/// What a statement compiles to: the emission and patch-after-emit
/// protocol, one arm per statement kind. A function
/// declaration in statement position is silently skipped, a leniency
/// kept on purpose; `None` is the fatal pool or jump-address overflow.
pub open spec fn compile_stmt_spec(p: Program, sid: int, st: ChunkView) -> Option<ChunkView>
    decreases sid, 1int, 0int,
        when program_wf(p) && 0 <= sid < p.stmts@.len()
{
    match p.stmts@[sid] {
        Stmt::VarDecl { name, init } => match compile_expr_spec(p, init as int, st) {
            None => None,
            Some(st1) => match get_name_spec(st1, name@) {
                None => None,
                Some((st2, idx)) => Some(emit2(st2, OpCode::StoreGlobal, idx)),
            },
        },
        Stmt::If { condition, then_branch, else_branch } => match compile_expr_spec(
            p,
            condition as int,
            st,
        ) {
            None => None,
            Some(st1) => {
                let st2 = emit_hole(emit1(st1, OpCode::JumpIfFalse));
                let pp = st1.code.len() + 1;
                match compile_stmt_list_spec(p, then_branch@, sid, st2) {
                    None => None,
                    Some(st4) => match else_branch {
                        None => if st4.code.len() > 0xffff {
                            None
                        } else {
                            Some(patch_spec(st4, pp as int, st4.code.len() as int))
                        },
                        Some(eb) => {
                            // An unconditional jump leaps over the else
                            // branch; the guard's placeholder aims at the
                            // branch's start, the jump's at its end.
                            let st5 = emit_hole(emit1(st4, OpCode::Jump));
                            let pp2 = st4.code.len() + 1;
                            if st5.code.len() > 0xffff {
                                None
                            } else {
                                match compile_stmt_list_spec(
                                    p,
                                    eb@,
                                    sid,
                                    patch_spec(st5, pp as int, st5.code.len() as int),
                                ) {
                                    None => None,
                                    Some(st8) => if st8.code.len() > 0xffff {
                                        None
                                    } else {
                                        Some(patch_spec(st8, pp2 as int, st8.code.len() as int))
                                    },
                                }
                            }
                        },
                    },
                }
            },
        },
        Stmt::While { condition, body } => if st.code.len() > 0xffff {
            None
        } else {
            let start = st.code.len() as int;
            match compile_expr_spec(p, condition as int, st) {
                None => None,
                Some(st1) => {
                    let st2 = emit_hole(emit1(st1, OpCode::JumpIfFalse));
                    let pp = st1.code.len() + 1;
                    match compile_stmt_list_spec(p, body@, sid, st2) {
                        None => None,
                        Some(st4) => {
                            let st6 = ChunkView {
                                code: st4.code.push(opcode_byte_spec(OpCode::Jump)).push(
                                    (start / 256) as u8,
                                ).push((start % 256) as u8),
                                ..st4
                            };
                            if st6.code.len() > 0xffff {
                                None
                            } else {
                                Some(patch_spec(st6, pp as int, st6.code.len() as int))
                            }
                        },
                    }
                },
            }
        },
        Stmt::Function { .. } => Some(st),
        Stmt::Expression(e) => match compile_expr_spec(p, e as int, st) {
            None => None,
            Some(st1) => if expr_leaves_value_spec(p, e as int) {
                Some(emit1(st1, OpCode::Pop))
            } else {
                Some(st1)
            },
        },
    }
}

/// The statements of one block, compiled in order.
pub open spec fn compile_stmt_list_spec(
    p: Program,
    ids: Seq<usize>,
    parent: int,
    st: ChunkView,
) -> Option<ChunkView>
    decreases parent, 0int, ids.len(),
        when program_wf(p) && 0 <= parent < p.stmts@.len() && (forall|j: int|
            0 <= j < ids.len() ==> #[trigger] ids[j] < parent)
{
    if ids.len() == 0 {
        Some(st)
    } else {
        match compile_stmt_spec(p, ids[0] as int, st) {
            None => None,
            Some(st1) => compile_stmt_list_spec(p, ids.skip(1), parent, st1),
        }
    }
}

/// One hoisted function compiled into the jumped-over region: its name's
/// pool index, a constant holding its entry address, the body, and a
/// return; the pool indices come back for the binding emitted later.
pub open spec fn compile_function_spec(p: Program, sid: int, st: ChunkView) -> Option<
    (ChunkView, u8, u8),
> {
    match p.stmts@[sid] {
        Stmt::Function { name, params, body } => if st.code.len() > 0xffff {
            None
        } else {
            match get_name_spec(st, name@) {
                None => None,
                Some((st1, n_idx)) => match add_const_spec(
                    st1,
                    ValueView::Number(crate::num::num_from_int_spec(st.code.len() as int)),
                ) {
                    None => None,
                    Some((st2, c_idx)) => match compile_stmt_list_spec(p, body@, sid, st2) {
                        None => None,
                        Some(st3) => Some((emit1(st3, OpCode::Return), c_idx, n_idx)),
                    },
                },
            }
        },
        _ => None,
    }
}

/// The first pass over the top level: every function declaration is
/// compiled, and its binding pair collected, in source order.
pub open spec fn compile_fns_spec(
    p: Program,
    body: Seq<usize>,
    st: ChunkView,
    binds: Seq<(u8, u8)>,
) -> Option<(ChunkView, Seq<(u8, u8)>)>
    decreases body.len(),
        when program_wf(p) && (forall|j: int|
            0 <= j < body.len() ==> (#[trigger] body[j]) < p.stmts@.len())
{
    if body.len() == 0 {
        Some((st, binds))
    } else if p.stmts@[body[0] as int] is Function {
        match compile_function_spec(p, body[0] as int, st) {
            None => None,
            Some((st1, c, n)) => compile_fns_spec(p, body.skip(1), st1, binds.push((c, n))),
        }
    } else {
        compile_fns_spec(p, body.skip(1), st, binds)
    }
}

/// The bindings emitted where the hoisting jump lands: for each function,
/// load its entry-address constant and store it under its name.
pub open spec fn emit_binds_spec(st: ChunkView, binds: Seq<(u8, u8)>) -> ChunkView
    decreases binds.len(),
{
    if binds.len() == 0 {
        st
    } else {
        emit_binds_spec(
            emit2(emit2(st, OpCode::LoadConst, binds[0].0), OpCode::StoreGlobal, binds[0].1),
            binds.skip(1),
        )
    }
}

/// The second pass over the top level: every statement that is not a
/// function declaration, in source order.
pub open spec fn compile_tops_spec(p: Program, body: Seq<usize>, st: ChunkView) -> Option<
    ChunkView,
>
    decreases body.len(),
        when program_wf(p) && (forall|j: int|
            0 <= j < body.len() ==> (#[trigger] body[j]) < p.stmts@.len())
{
    if body.len() == 0 {
        Some(st)
    } else if p.stmts@[body[0] as int] is Function {
        compile_tops_spec(p, body.skip(1), st)
    } else {
        match compile_stmt_spec(p, body[0] as int, st) {
            None => None,
            Some(st1) => compile_tops_spec(p, body.skip(1), st1),
        }
    }
}

/// What a whole program compiles to, from an empty chunk: the hoisting
/// jump with its patched landing point, the function bodies, the name
/// bindings, the top-level code, and the trailing halt; `None` is the
/// fatal pool or jump-address overflow.
pub open spec fn compile_program_spec(p: Program) -> Option<ChunkView> {
    let st0 = ChunkView {
        code: seq![opcode_byte_spec(OpCode::Jump), 0u8, 0u8],
        constants: Seq::empty(),
        names: Seq::empty(),
    };
    match compile_fns_spec(p, p.body@, st0, Seq::empty()) {
        None => None,
        Some((st1, binds)) => if st1.code.len() > 0xffff {
            None
        } else {
            let st3 = emit_binds_spec(patch_spec(st1, 1, st1.code.len() as int), binds);
            match compile_tops_spec(p, p.body@, st3) {
                None => None,
                Some(st4) => Some(emit1(st4, OpCode::Halt)),
            }
        },
    }
}

/// How the second pass's result decides the whole compilation: the
/// trailing halt is all that follows it.
pub open spec fn tops_stage(p: Program, st: ChunkView) -> bool {
    match compile_tops_spec(p, p.body@, st) {
        None => compile_program_spec(p) is None,
        Some(st4) => compile_program_spec(p) == Some(emit1(st4, OpCode::Halt)),
    }
}

/// Walks a program once and emits a chunk.
pub struct Compiler {
    chunk: Chunk,
}

impl Compiler {
    /// The compiler's internal invariant.
    pub closed spec fn inv(&self) -> bool {
        compiler_inv(self.chunk@)
    }

    pub fn new() -> (c: Compiler)
        ensures
            c.inv(),
    {
        Compiler { chunk: Chunk::new() }
    }

    fn emit_byte(&mut self, b: u8)
        requires
            old(self).inv(),
        ensures
            final(self).inv(),
            final(self).chunk@.code == old(self).chunk@.code.push(b),
            final(self).chunk@.constants == old(self).chunk@.constants,
            final(self).chunk@.names == old(self).chunk@.names,
    {
        self.chunk.code.push(b);
        proof {
            assert(self.chunk@.constants =~= old(self).chunk@.constants);
            assert(self.chunk@.names =~= old(self).chunk@.names);
        }
    }

    fn emit_op(&mut self, op: OpCode)
        requires
            old(self).inv(),
        ensures
            final(self).inv(),
            final(self).chunk@.code == old(self).chunk@.code.push(opcode_byte_spec(op)),
            final(self).chunk@.constants == old(self).chunk@.constants,
            final(self).chunk@.names == old(self).chunk@.names,
    {
        let b = op.byte();
        self.emit_byte(b);
    }

    /// Emits a 16-bit operand, high byte first.
    fn emit_u16(&mut self, v: u16)
        requires
            old(self).inv(),
        ensures
            final(self).inv(),
            final(self).chunk@.code == old(self).chunk@.code + seq![
                (v / 256) as u8,
                (v % 256) as u8,
            ],
            final(self).chunk@.constants == old(self).chunk@.constants,
            final(self).chunk@.names == old(self).chunk@.names,
    {
        self.emit_byte((v / 256) as u8);
        self.emit_byte((v % 256) as u8);
        proof {
            assert(self.chunk@.code =~= old(self).chunk@.code + seq![
                (v / 256) as u8,
                (v % 256) as u8,
            ]);
        }
    }

    /// Overwrites a previously emitted 16-bit placeholder, high byte
    /// first.
    fn patch_u16(&mut self, at: usize, v: u16)
        requires
            old(self).inv(),
            at + 1 < old(self).chunk@.code.len(),
        ensures
            final(self).inv(),
            final(self).chunk@.code == old(self).chunk@.code.update(at as int, (v / 256) as u8)
                .update(at + 1, (v % 256) as u8),
            final(self).chunk@.code.len() == old(self).chunk@.code.len(),
            final(self).chunk@.constants == old(self).chunk@.constants,
            final(self).chunk@.names == old(self).chunk@.names,
    {
        let n = self.chunk.code.len();
        self.chunk.code.set(at, (v / 256) as u8);
        self.chunk.code.set(at + 1, (v % 256) as u8);
        proof {
            assert(self.chunk@.constants =~= old(self).chunk@.constants);
            assert(self.chunk@.names =~= old(self).chunk@.names);
        }
    }

    /// Appends a value to the constant pool; fatal once the pool is full.
    fn add_constant(&mut self, v: Value) -> (r: Result<u8, CompilerError>)
        requires
            old(self).inv(),
            value_wf(v@),
        ensures
            final(self).inv(),
            final(self).chunk@.code == old(self).chunk@.code,
            final(self).chunk@.names == old(self).chunk@.names,
            match r {
                Ok(idx) => {
                    &&& add_const_spec(old(self).chunk@, v@) == Some((final(self).chunk@, idx))
                    &&& final(self).chunk@.constants == old(self).chunk@.constants.push(v@)
                    &&& idx as int == old(self).chunk@.constants.len()
                },
                Err(_) => add_const_spec(old(self).chunk@, v@) is None,
            },
    {
        if self.chunk.constants.len() >= 256 {
            return Err(CompilerError::new(
                "Vuot qua gioi han hang so",
                "Constant pool overflow",
                0,
                0,
            ));
        }
        let idx = self.chunk.constants.len() as u8;
        self.chunk.constants.push(v);
        proof {
            assert(self.chunk@.constants =~= old(self).chunk@.constants.push(v@));
            assert(self.chunk@.names =~= old(self).chunk@.names);
            assert(self.chunk@ =~= (ChunkView {
                constants: old(self).chunk@.constants.push(v@),
                ..old(self).chunk@
            }));
        }
        Ok(idx)
    }

    /// The pool index of a name, created on first sight; the pool stays
    /// duplicate-free, so the index returned for a known name is the one
    /// it was created with.
    fn get_or_create_name(&mut self, name: &String) -> (r: Result<u8, CompilerError>)
        requires
            old(self).inv(),
        ensures
            final(self).inv(),
            final(self).chunk@.code == old(self).chunk@.code,
            final(self).chunk@.constants == old(self).chunk@.constants,
            match r {
                Ok(idx) => {
                    &&& get_name_spec(old(self).chunk@, name@) == Some((final(self).chunk@, idx))
                    &&& (idx as int) < final(self).chunk@.names.len()
                    &&& final(self).chunk@.names[idx as int] == name@
                    &&& (final(self).chunk@.names == old(self).chunk@.names
                        || final(self).chunk@.names == old(self).chunk@.names.push(name@))
                },
                Err(_) => get_name_spec(old(self).chunk@, name@) is None,
            },
    {
        let n = self.chunk.names.len();
        let mut j: usize = 0;
        while j < n
            invariant
                j <= n,
                n == self.chunk@.names.len(),
                self.inv(),
                self.chunk@ == old(self).chunk@,
                forall|t: int| 0 <= t < j ==> self.chunk@.names[t] != name@,
            decreases n - j,
        {
            if <String as PartialEq>::eq(&self.chunk.names[j], name) {
                proof {
                    assert(self.chunk@.names[j as int] == self.chunk.names@[j as int]@);
                    lemma_name_index_unique(self.chunk@.names, name@, j as int);
                }
                return Ok(j as u8);
            }
            j = j + 1;
        }
        proof {
            lemma_name_index(self.chunk@.names, name@);
            assert(name_index(self.chunk@.names, name@) == n as int);
        }
        if n >= 256 {
            return Err(CompilerError::new(
                "Vuot qua gioi han ten bien",
                "Name pool overflow",
                0,
                0,
            ));
        }
        self.chunk.names.push(name.clone());
        proof {
            assert(self.chunk@.names =~= old(self).chunk@.names.push(name@));
            assert(self.chunk@.constants =~= old(self).chunk@.constants);
            assert(self.chunk@ =~= (ChunkView {
                names: old(self).chunk@.names.push(name@),
                ..old(self).chunk@
            }));
        }
        Ok(n as u8)
    }

    /// Compiles one expression node: the emitted instructions leave
    /// exactly the expression's value on top of the stack when run, except
    /// for calls to builtins that produce nothing.
    fn compile_expr(&mut self, p: &Program, eid: usize) -> (r: Result<(), CompilerError>)
        requires
            program_wf(*p),
            eid < p.exprs@.len(),
            old(self).inv(),
        ensures
            final(self).inv(),
            final(self).chunk@.code.len() >= old(self).chunk@.code.len(),
            match r {
                Ok(_) => compile_expr_spec(*p, eid as int, old(self).chunk@) == Some(
                    final(self).chunk@,
                ),
                Err(_) => compile_expr_spec(*p, eid as int, old(self).chunk@) is None,
            },
        decreases eid,
    {
        let e = &p.exprs[eid];
        proof {
            assert(expr_node_wf(p.exprs@[eid as int], eid as int));
        }
        match e {
            Expr::Number(v) => {
                let idx = self.add_constant(Value::Number(Num::from_int(*v)))?;
                let ghost st1 = self.chunk@;
                self.emit_op(OpCode::LoadConst);
                self.emit_byte(idx);
                proof {
                    assert(self.chunk@ =~= emit2(st1, OpCode::LoadConst, idx));
                }
            },
            Expr::Str(s) => {
                let idx = self.add_constant(Value::Str(s.clone()))?;
                let ghost st1 = self.chunk@;
                self.emit_op(OpCode::LoadConst);
                self.emit_byte(idx);
                proof {
                    assert(self.chunk@ =~= emit2(st1, OpCode::LoadConst, idx));
                }
            },
            Expr::Variable(name) => {
                let idx = self.get_or_create_name(name)?;
                let ghost st1 = self.chunk@;
                self.emit_op(OpCode::LoadGlobal);
                self.emit_byte(idx);
                proof {
                    assert(self.chunk@ =~= emit2(st1, OpCode::LoadGlobal, idx));
                }
            },
            Expr::Binary { left, op, right } => {
                self.compile_expr(p, *left)?;
                self.compile_expr(p, *right)?;
                let ghost st2 = self.chunk@;
                match op {
                    BinOp::Add => self.emit_op(OpCode::Add),
                    BinOp::Sub => self.emit_op(OpCode::Sub),
                    BinOp::Mul => self.emit_op(OpCode::Mul),
                    BinOp::Div => self.emit_op(OpCode::Div),
                }
                proof {
                    assert(self.chunk@ =~= emit1(st2, binop_opcode(*op)));
                }
            },
            Expr::Compare { left, op, right } => {
                self.compile_expr(p, *left)?;
                self.compile_expr(p, *right)?;
                let ghost st2 = self.chunk@;
                match op {
                    CompareOp::Greater => self.emit_op(OpCode::Gt),
                    CompareOp::Less => self.emit_op(OpCode::Lt),
                    CompareOp::Equal => self.emit_op(OpCode::Eq),
                }
                proof {
                    assert(self.chunk@ =~= emit1(st2, cmpop_opcode(*op)));
                }
            },
            Expr::Call { callee, args } => {
                proof {
                    assert(args@.skip(0) =~= args@);
                }
                let mut t: usize = 0;
                while t < args.len()
                    invariant
                        t <= args@.len(),
                        program_wf(*p),
                        eid < p.exprs@.len(),
                        p.exprs@[eid as int] matches Expr::Call { callee: cx, args: ax }
                            && cx == *callee && ax == *args,
                        old(self).chunk@.code.len() <= self.chunk@.code.len(),
                        forall|u: int| 0 <= u < args@.len() ==> args@[u] < eid,
                        forall|u: int|
                            0 <= u < args@.len() ==> #[trigger] args@[u] < p.exprs@.len(),
                        self.inv(),
                        compile_args_spec(*p, args@.skip(t as int), eid as int, self.chunk@)
                            == compile_args_spec(*p, args@, eid as int, old(self).chunk@),
                    decreases args@.len() - t,
                {
                    let ghost prev = self.chunk@;
                    proof {
                        assert(args@.skip(t as int)[0] == args@[t as int]);
                    }
                    self.compile_expr(p, args[t])?;
                    proof {
                        assert(args@.skip(t as int).skip(1) =~= args@.skip(t + 1));
                    }
                    t = t + 1;
                }
                proof {
                    assert(args@.skip(t as int) =~= Seq::<usize>::empty());
                    assert(compile_args_spec(*p, args@, eid as int, old(self).chunk@) == Some(
                        self.chunk@,
                    ));
                }
                match builtin_opcode(callee) {
                    Some(op) => {
                        let ghost st1 = self.chunk@;
                        self.emit_op(op);
                        proof {
                            assert(self.chunk@ =~= emit1(st1, op));
                        }
                    },
                    None => {
                        let idx = self.get_or_create_name(callee)?;
                        let ghost st2 = self.chunk@;
                        self.emit_op(OpCode::Call);
                        self.emit_byte(idx);
                        proof {
                            assert(self.chunk@ =~= emit2(st2, OpCode::Call, idx));
                        }
                    },
                }
            },
        }
        Ok(())
    }

    /// Compiles one statement node.
    fn compile_stmt(&mut self, p: &Program, sid: usize) -> (r: Result<(), CompilerError>)
        requires
            program_wf(*p),
            sid < p.stmts@.len(),
            old(self).inv(),
        ensures
            final(self).inv(),
            final(self).chunk@.code.len() >= old(self).chunk@.code.len(),
            match r {
                Ok(_) => compile_stmt_spec(*p, sid as int, old(self).chunk@) == Some(
                    final(self).chunk@,
                ),
                Err(_) => compile_stmt_spec(*p, sid as int, old(self).chunk@) is None,
            },
        decreases sid, 1int,
    {
        let s = &p.stmts[sid];
        proof {
            assert(stmt_node_wf(p.stmts@[sid as int], sid as int, p.exprs@.len() as int));
        }
        match s {
            Stmt::VarDecl { name, init } => {
                self.compile_expr(p, *init)?;
                let idx = self.get_or_create_name(name)?;
                let ghost st2 = self.chunk@;
                self.emit_op(OpCode::StoreGlobal);
                self.emit_byte(idx);
                proof {
                    assert(self.chunk@ =~= emit2(st2, OpCode::StoreGlobal, idx));
                }
            },
            Stmt::If { condition, then_branch, else_branch } => {
                self.compile_expr(p, *condition)?;
                let ghost st1 = self.chunk@;
                self.emit_op(OpCode::JumpIfFalse);
                let pp = self.chunk.code.len();
                self.emit_u16(0);
                proof {
                    assert(self.chunk@ =~= emit_hole(emit1(st1, OpCode::JumpIfFalse)));
                }
                self.compile_stmt_list(p, then_branch, sid)?;
                match else_branch {
                    None => {
                        let end = self.chunk.code.len();
                        if end > 0xffff {
                            return Err(jump_overflow_error());
                        }
                        let ghost st4 = self.chunk@;
                        self.patch_u16(pp, end as u16);
                        proof {
                            assert(self.chunk@ =~= patch_spec(st4, pp as int, end as int));
                        }
                    },
                    Some(eb) => {
                        let ghost st4 = self.chunk@;
                        self.emit_op(OpCode::Jump);
                        let pp2 = self.chunk.code.len();
                        self.emit_u16(0);
                        proof {
                            assert(self.chunk@ =~= emit_hole(emit1(st4, OpCode::Jump)));
                        }
                        let else_start = self.chunk.code.len();
                        if else_start > 0xffff {
                            return Err(jump_overflow_error());
                        }
                        let ghost st5 = self.chunk@;
                        self.patch_u16(pp, else_start as u16);
                        proof {
                            assert(self.chunk@ =~= patch_spec(st5, pp as int, else_start as int));
                        }
                        self.compile_stmt_list(p, eb, sid)?;
                        let end = self.chunk.code.len();
                        if end > 0xffff {
                            return Err(jump_overflow_error());
                        }
                        let ghost st8 = self.chunk@;
                        self.patch_u16(pp2, end as u16);
                        proof {
                            assert(self.chunk@ =~= patch_spec(st8, pp2 as int, end as int));
                        }
                    },
                }
            },
            Stmt::While { condition, body } => {
                let start = self.chunk.code.len();
                if start > 0xffff {
                    return Err(jump_overflow_error());
                }
                self.compile_expr(p, *condition)?;
                let ghost st1 = self.chunk@;
                self.emit_op(OpCode::JumpIfFalse);
                let pp = self.chunk.code.len();
                self.emit_u16(0);
                proof {
                    assert(self.chunk@ =~= emit_hole(emit1(st1, OpCode::JumpIfFalse)));
                }
                self.compile_stmt_list(p, body, sid)?;
                let ghost st4 = self.chunk@;
                self.emit_op(OpCode::Jump);
                self.emit_u16(start as u16);
                proof {
                    assert(self.chunk@ =~= (ChunkView {
                        code: st4.code.push(opcode_byte_spec(OpCode::Jump)).push(
                            (start / 256) as u8,
                        ).push((start % 256) as u8),
                        ..st4
                    }));
                }
                let end = self.chunk.code.len();
                if end > 0xffff {
                    return Err(jump_overflow_error());
                }
                let ghost st6 = self.chunk@;
                self.patch_u16(pp, end as u16);
                proof {
                    assert(self.chunk@ =~= patch_spec(st6, pp as int, end as int));
                }
            },
            Stmt::Function { .. } => {
                // Function declarations are hoisted and compiled by
                // `compile`; one nested anywhere else is silently skipped,
                // a leniency kept on purpose.
            },
            Stmt::Expression(e) => {
                self.compile_expr(p, *e)?;
                if expr_leaves_value(p, *e) {
                    let ghost st1 = self.chunk@;
                    self.emit_op(OpCode::Pop);
                    proof {
                        assert(self.chunk@ =~= emit1(st1, OpCode::Pop));
                    }
                }
            },
        }
        Ok(())
    }

    /// Compiles the statements of one block, each of which comes before
    /// the enclosing statement in the arena.
    fn compile_stmt_list(
        &mut self,
        p: &Program,
        ids: &Vec<usize>,
        parent: usize,
    ) -> (r: Result<(), CompilerError>)
        requires
            program_wf(*p),
            parent < p.stmts@.len(),
            forall|j: int| 0 <= j < ids@.len() ==> #[trigger] ids@[j] < parent,
            old(self).inv(),
        ensures
            final(self).inv(),
            final(self).chunk@.code.len() >= old(self).chunk@.code.len(),
            match r {
                Ok(_) => compile_stmt_list_spec(*p, ids@, parent as int, old(self).chunk@)
                    == Some(final(self).chunk@),
                Err(_) => compile_stmt_list_spec(*p, ids@, parent as int, old(self).chunk@)
                    is None,
            },
        decreases parent, 0int,
    {
        proof {
            assert(ids@.skip(0) =~= ids@);
        }
        let mut t: usize = 0;
        while t < ids.len()
            invariant
                t <= ids@.len(),
                program_wf(*p),
                parent < p.stmts@.len(),
                old(self).chunk@.code.len() <= self.chunk@.code.len(),
                forall|j: int| 0 <= j < ids@.len() ==> #[trigger] ids@[j] < parent,
                self.inv(),
                compile_stmt_list_spec(*p, ids@.skip(t as int), parent as int, self.chunk@)
                    == compile_stmt_list_spec(*p, ids@, parent as int, old(self).chunk@),
            decreases ids@.len() - t,
        {
            proof {
                assert(ids@.skip(t as int)[0] == ids@[t as int]);
            }
            self.compile_stmt(p, ids[t])?;
            proof {
                assert(ids@.skip(t as int).skip(1) =~= ids@.skip(t + 1));
            }
            t = t + 1;
        }
        proof {
            assert(ids@.skip(t as int) =~= Seq::<usize>::empty());
        }
        Ok(())
    }

    /// Translates a whole program into one executable chunk with a
    /// trailing halt. Functions are hoisted: an initial jump leaps over
    /// the compiled function bodies, each of which is bound to its name,
    /// and lands where the top-level statements begin.
    pub fn compile(&mut self, p: &Program) -> (r: Result<Chunk, CompilerError>)
        requires
            program_wf(*p),
            old(self).inv(),
        ensures
            final(self).inv(),
            match r {
                Ok(c) => {
                    &&& compile_program_spec(*p) == Some(c@)
                    &&& chunk_wf(c@)
                    &&& c@.code.len() > 0
                    &&& c@.code.last() == opcode_byte_spec(OpCode::Halt)
                    &&& c@.constants.len() <= 256
                    &&& c@.names.len() <= 256
                    &&& names_unique(c@.names)
                },
                Err(_) => compile_program_spec(*p) is None,
            },
    {
        // Each compilation starts from a fresh chunk.
        let mut fresh = Chunk::new();
        core::mem::swap(&mut fresh, &mut self.chunk);
        self.emit_op(OpCode::Jump);
        let main_patch = self.chunk.code.len();
        self.emit_u16(0);
        let ghost st0 = self.chunk@;
        proof {
            assert(st0 =~= (ChunkView {
                code: seq![opcode_byte_spec(OpCode::Jump), 0u8, 0u8],
                constants: Seq::empty(),
                names: Seq::empty(),
            }));
            assert(p.body@.skip(0) =~= p.body@);
        }

        // First pass: compile every top-level function body into the
        // region the hoisting jump leaps over, collecting for each the
        // constant holding its entry address and its name's pool index.
        let mut bindings: Vec<(u8, u8)> = Vec::new();
        let mut t: usize = 0;
        while t < p.body.len()
            invariant
                t <= p.body@.len(),
                program_wf(*p),
                self.inv(),
                main_patch == 1,
                main_patch + 2 <= self.chunk@.code.len(),
                st0 == (ChunkView {
                    code: seq![opcode_byte_spec(OpCode::Jump), 0u8, 0u8],
                    constants: Seq::empty(),
                    names: Seq::empty(),
                }),
                compile_fns_spec(*p, p.body@.skip(t as int), self.chunk@, bindings@)
                    == compile_fns_spec(*p, p.body@, st0, Seq::empty()),
            decreases p.body@.len() - t,
        {
            let sid = p.body[t];
            proof {
                assert(p.body@.skip(t as int)[0] == p.body@[t as int]);
            }
            let is_function = matches!(&p.stmts[sid], Stmt::Function { .. });
            if is_function {
                let pair = self.compile_function(p, sid)?;
                bindings.push(pair);
            }
            proof {
                assert(p.body@.skip(t as int).skip(1) =~= p.body@.skip(t + 1));
            }
            t = t + 1;
        }
        proof {
            assert(p.body@.skip(t as int) =~= Seq::<usize>::empty());
            assert(compile_fns_spec(*p, p.body@, st0, Seq::empty()) == Some(
                (self.chunk@, bindings@),
            ));
        }

        // The hoisting jump lands here: first the bindings of each
        // function's entry address to its name — they must run before any
        // call — then the top-level code.
        let main_start = self.chunk.code.len();
        if main_start > 0xffff {
            return Err(jump_overflow_error());
        }
        let ghost st1 = self.chunk@;
        self.patch_u16(main_patch, main_start as u16);
        proof {
            assert(self.chunk@ =~= patch_spec(st1, 1, main_start as int));
            assert(bindings@.skip(0) =~= bindings@);
        }
        let ghost base = self.chunk@;
        let mut b: usize = 0;
        while b < bindings.len()
            invariant
                b <= bindings@.len(),
                self.inv(),
                emit_binds_spec(self.chunk@, bindings@.skip(b as int)) == emit_binds_spec(
                    base,
                    bindings@,
                ),
            decreases bindings@.len() - b,
        {
            let ghost prev = self.chunk@;
            proof {
                assert(bindings@.skip(b as int)[0] == bindings@[b as int]);
            }
            let (c_idx, n_idx) = bindings[b];
            self.emit_op(OpCode::LoadConst);
            self.emit_byte(c_idx);
            self.emit_op(OpCode::StoreGlobal);
            self.emit_byte(n_idx);
            proof {
                assert(self.chunk@ =~= emit2(
                    emit2(prev, OpCode::LoadConst, c_idx),
                    OpCode::StoreGlobal,
                    n_idx,
                ));
                assert(bindings@.skip(b as int).skip(1) =~= bindings@.skip(b + 1));
            }
            b = b + 1;
        }
        proof {
            assert(bindings@.skip(b as int) =~= Seq::<(u8, u8)>::empty());
            assert(self.chunk@ == emit_binds_spec(base, bindings@));
            assert(p.body@.skip(0) =~= p.body@);
        }

        // Second pass: everything that is not a function declaration.
        let ghost st3 = self.chunk@;
        proof {
            assert(tops_stage(*p, st3));
        }
        let mut t2: usize = 0;
        while t2 < p.body.len()
            invariant
                t2 <= p.body@.len(),
                program_wf(*p),
                self.inv(),
                tops_stage(*p, st3),
                compile_tops_spec(*p, p.body@.skip(t2 as int), self.chunk@)
                    == compile_tops_spec(*p, p.body@, st3),
            decreases p.body@.len() - t2,
        {
            let sid = p.body[t2];
            proof {
                assert(p.body@.skip(t2 as int)[0] == p.body@[t2 as int]);
            }
            let is_function = matches!(&p.stmts[sid], Stmt::Function { .. });
            if !is_function {
                self.compile_stmt(p, sid)?;
            }
            proof {
                assert(p.body@.skip(t2 as int).skip(1) =~= p.body@.skip(t2 + 1));
            }
            t2 = t2 + 1;
        }
        proof {
            assert(p.body@.skip(t2 as int) =~= Seq::<usize>::empty());
            assert(compile_tops_spec(*p, p.body@, st3) == Some(self.chunk@));
        }
        let ghost st4 = self.chunk@;
        self.emit_op(OpCode::Halt);
        proof {
            assert(self.chunk@ =~= emit1(st4, OpCode::Halt));
            assert(compile_program_spec(*p) == Some(self.chunk@));
        }

        let mut out = Chunk::new();
        core::mem::swap(&mut out, &mut self.chunk);
        Ok(out)
    }

    /// Compiles one hoisted function body, ending in a return, and hands
    /// back the pool indices of its entry-address constant and its name,
    /// for the binding emitted where the hoisting jump lands.
    fn compile_function(&mut self, p: &Program, sid: usize) -> (r: Result<(u8, u8), CompilerError>)
        requires
            program_wf(*p),
            sid < p.stmts@.len(),
            p.stmts@[sid as int] is Function,
            old(self).inv(),
        ensures
            final(self).inv(),
            final(self).chunk@.code.len() >= old(self).chunk@.code.len(),
            match r {
                Ok(pair) => compile_function_spec(*p, sid as int, old(self).chunk@) == Some(
                    (final(self).chunk@, pair.0, pair.1),
                ),
                Err(_) => compile_function_spec(*p, sid as int, old(self).chunk@) is None,
            },
    {
        let s = &p.stmts[sid];
        proof {
            assert(stmt_node_wf(p.stmts@[sid as int], sid as int, p.exprs@.len() as int));
        }
        match s {
            Stmt::Function { name, body, .. } => {
                let body_start = self.chunk.code.len();
                if body_start > 0xffff {
                    return Err(jump_overflow_error());
                }
                let n_idx = self.get_or_create_name(name)?;
                let c_idx = self.add_constant(
                    Value::Number(Num::from_int(body_start as i64)),
                )?;
                self.compile_stmt_list(p, body, sid)?;
                let ghost st3 = self.chunk@;
                self.emit_op(OpCode::Return);
                proof {
                    assert(self.chunk@ =~= emit1(st3, OpCode::Return));
                }
                Ok((c_idx, n_idx))
            },
            _ => Err(jump_overflow_error()),
        }
    }
}

/// The fatal error for a jump target past the 16-bit address space.
fn jump_overflow_error() -> (e: CompilerError)
{
    CompilerError::new(
        "Chuong trinh qua dai cho dia chi nhay 16-bit",
        "Program too long for 16-bit jump addresses",
        0,
        0,
    )
}

/// The fixed, closed builtin table: a call to one of these names compiles
/// to its dedicated opcode; any other callee compiles to a dynamic call.
fn builtin_opcode(name: &String) -> (r: Option<OpCode>)
    ensures
        r == builtin_opcode_spec(name@),
{
    if str_eq(name.as_str(), "in") {
        Some(OpCode::Print)
    } else if str_eq(name.as_str(), "in_dong") {
        Some(OpCode::PrintRaw)
    } else if str_eq(name.as_str(), "ngaunhien") {
        Some(OpCode::Random)
    } else if str_eq(name.as_str(), "ngu") {
        Some(OpCode::Sleep)
    } else if str_eq(name.as_str(), "xoa") {
        Some(OpCode::Clear)
    } else if str_eq(name.as_str(), "nhap") {
        Some(OpCode::ReadLine)
    } else if str_eq(name.as_str(), "doc_file") {
        Some(OpCode::ReadFile)
    } else if str_eq(name.as_str(), "ghi_file") {
        Some(OpCode::WriteFile)
    } else {
        None
    }
}

/// Whether the callee is a builtin that pushes a value: a call to one of
/// these in statement position needs a trailing pop.
fn builtin_pushes_value(name: &String) -> (r: bool)
    ensures
        r == builtin_pushes_value_spec(name@),
{
    str_eq(name.as_str(), "ngaunhien") || str_eq(name.as_str(), "nhap") || str_eq(
        name.as_str(),
        "doc_file",
    )
}

/// Whether an expression in statement position leaves a value on the
/// stack that a pop must clean up.
fn expr_leaves_value(p: &Program, eid: usize) -> (r: bool)
    requires
        eid < p.exprs@.len(),
    ensures
        r == expr_leaves_value_spec(*p, eid as int),
{
    match &p.exprs[eid] {
        Expr::Call { callee, .. } => builtin_pushes_value(callee),
        _ => true,
    }
}

/// Character-for-character string equality.
pub fn str_eq(a: &str, b: &str) -> (r: bool)
    ensures
        r == (a@ == b@),
{
    let n = a.unicode_len();
    if n != b.unicode_len() {
        return false;
    }
    let mut i: usize = 0;
    while i < n
        invariant
            i <= n,
            n == a@.len(),
            n == b@.len(),
            forall|t: int| 0 <= t < i ==> a@[t] == b@[t],
        decreases n - i,
    {
        if a.get_char(i) != b.get_char(i) {
            return false;
        }
        i = i + 1;
    }
    proof {
        assert(a@ =~= b@);
    }
    true
}

} // verus!
