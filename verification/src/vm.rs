//! The virtual machine: a fetch-decode-execute loop over a chunk, with an
//! operand stack, a flat global table, and a call stack of return
//! addresses.
//!
//! The machine itself performs no input or output. Every instruction that
//! touches the world outside — printing, sleeping, clearing the screen,
//! reading a line, reading or writing a file, drawing a random number —
//! computes its operands here and then surrenders an [`IoReq`] to the
//! caller, who performs it and, where the request has an answer, hands the
//! answer back through one of the `provide` methods. One `step` executes
//! exactly one instruction, and its whole effect is the mathematical
//! transition [`step_spec`].
//!
//! Fault policy, reproduced exactly: a pop on an empty stack yields `Nil`
//! rather than faulting; a push past the fixed stack capacity is a fatal
//! overflow; an unknown opcode, a truncated operand, an out-of-range
//! constant index or an unresolvable call target is a fatal illegal
//! instruction; reading an absent global yields `Nil`. A fatal fault halts
//! the machine with a reason distinguishable from a normal halt.

use vstd::prelude::*;
use vstd::pervasive::VecAdditionalExecFns;
use vstd::string::StrSliceExecFns;
use crate::chunk::{chunk_wf, decode_opcode_spec, opcode_byte_spec, Chunk, ChunkView, OpCode};
use crate::num::{num_wf, Num, SCALE};
use crate::value::{
    as_number_spec, is_truthy_spec, value_add_spec, value_eq_spec, value_gt_spec, value_lt_spec,
    value_str_spec, value_wf, Value, ValueView,
};

verus! {

/// The operand stack's fixed capacity.
pub const STACK_MAX: usize = 256;

/// Why the machine stopped; a fault is distinguishable from a normal
/// halt.
#[derive(Clone, Copy, Debug, PartialEq, Eq, Structural)]
pub enum HaltReason {
    /// A halt instruction, the end of the code, or a return with an empty
    /// call stack.
    Done,
    /// An unknown opcode, a truncated operand, a bad constant index, or a
    /// call target that is not an address.
    IllegalInstruction,
    /// A push past the stack capacity.
    StackOverflow,
}

/// The reply the machine is waiting for, if any.
#[derive(Clone, Copy, Debug, PartialEq, Eq, Structural)]
pub enum Pending {
    Line,
    File,
    Random,
}

/// A request the machine hands its driver: the one place the world
/// outside is touched.
#[derive(Debug, Clone)]
pub enum IoReq {
    /// Print this text with a trailing newline.
    Print(String),
    /// Print this text without a newline, flushing at once.
    PrintRaw(String),
    /// Block for this many milliseconds.
    Sleep(u64),
    /// Emit the clear-and-home escape sequence.
    Clear,
    /// Read one line; answer through `provide_line`.
    ReadLine,
    /// Read this file; answer through `provide_file`.
    ReadFile(String),
    /// Write the second text to the file named by the first; failures are
    /// ignored, no answer is owed.
    WriteFile(String, String),
    /// Draw a random number; answer through `provide_random`.
    Random,
}

/// The mathematical shape of a request.
pub enum IoReqView {
    Print(Seq<char>),
    PrintRaw(Seq<char>),
    Sleep(u64),
    Clear,
    ReadLine,
    ReadFile(Seq<char>),
    WriteFile(Seq<char>, Seq<char>),
    Random,
}

impl View for IoReq {
    type V = IoReqView;

    open spec fn view(&self) -> IoReqView {
        match self {
            IoReq::Print(s) => IoReqView::Print(s@),
            IoReq::PrintRaw(s) => IoReqView::PrintRaw(s@),
            IoReq::Sleep(ms) => IoReqView::Sleep(*ms),
            IoReq::Clear => IoReqView::Clear,
            IoReq::ReadLine => IoReqView::ReadLine,
            IoReq::ReadFile(p) => IoReqView::ReadFile(p@),
            IoReq::WriteFile(p, c) => IoReqView::WriteFile(p@, c@),
            IoReq::Random => IoReqView::Random,
        }
    }
}

/// What one step did: ran an internal instruction, halted, or handed out
/// a request.
#[derive(Debug)]
pub enum Step {
    Ran,
    Halted(HaltReason),
    Io(IoReq),
}

/// The mathematical shape of a step outcome.
pub enum StepView {
    Ran,
    Halted(HaltReason),
    Io(IoReqView),
}

impl View for Step {
    type V = StepView;

    open spec fn view(&self) -> StepView {
        match self {
            Step::Ran => StepView::Ran,
            Step::Halted(r) => StepView::Halted(*r),
            Step::Io(req) => StepView::Io(req@),
        }
    }
}

/// The mathematical state of the machine.
#[verifier::ext_equal]
pub struct VmView {
    pub stack: Seq<ValueView>,
    pub globals: Seq<Option<ValueView>>,
    pub calls: Seq<int>,
    pub ip: int,
    pub halted: Option<HaltReason>,
    pub awaiting: Option<Pending>,
}

/// One execution's mutable state, fully reset by `new`.
pub struct VM {
    stack: Vec<Value>,
    globals: Vec<Option<Value>>,
    call_stack: Vec<usize>,
    ip: usize,
    halted: Option<HaltReason>,
    awaiting: Option<Pending>,
}

/// The views of the values on a stack.
pub open spec fn stack_view(s: Seq<Value>) -> Seq<ValueView> {
    Seq::new(s.len(), |i: int| s[i]@)
}

/// The views of the global slots.
pub open spec fn globals_view(g: Seq<Option<Value>>) -> Seq<Option<ValueView>> {
    Seq::new(
        g.len(),
        |i: int|
            match g[i] {
                Some(v) => Some(v@),
                None => None,
            },
    )
}

impl View for VM {
    type V = VmView;

    closed spec fn view(&self) -> VmView {
        VmView {
            stack: stack_view(self.stack@),
            globals: globals_view(self.globals@),
            calls: Seq::new(self.call_stack@.len(), |i: int| self.call_stack@[i] as int),
            ip: self.ip as int,
            halted: self.halted,
            awaiting: self.awaiting,
        }
    }
}

/// Every value the machine holds is well-formed, and the stack and global
/// table respect their bounds.
pub open spec fn vm_wf(v: VmView) -> bool {
    &&& v.stack.len() <= 256
    &&& forall|i: int| 0 <= i < v.stack.len() ==> value_wf(#[trigger] v.stack[i])
    &&& v.globals.len() <= 256
    &&& forall|i: int|
        0 <= i < v.globals.len() ==> match #[trigger] v.globals[i] {
            Some(w) => value_wf(w),
            None => true,
        }
    &&& forall|i: int| 0 <= i < v.calls.len() ==> 0 <= #[trigger] v.calls[i] <= usize::MAX
    &&& 0 <= v.ip <= usize::MAX
}

/// The stack after a pop: shorter by one, or unchanged when already
/// empty.
pub open spec fn spec_popped(s: Seq<ValueView>) -> Seq<ValueView> {
    if s.len() == 0 {
        s
    } else {
        s.drop_last()
    }
}

/// What a pop yields: the top of the stack, or `Nil` when it is empty.
pub open spec fn spec_top(s: Seq<ValueView>) -> ValueView {
    if s.len() == 0 {
        ValueView::Nil
    } else {
        s.last()
    }
}

/// The value of a global slot: `Nil` for an index never stored to.
pub open spec fn spec_global(g: Seq<Option<ValueView>>, idx: int) -> ValueView {
    if 0 <= idx < g.len() {
        match g[idx] {
            Some(v) => v,
            None => ValueView::Nil,
        }
    } else {
        ValueView::Nil
    }
}

/// The global table after a store: the slot overwritten, the table grown
/// with empty slots first if the index is new.
pub open spec fn spec_set_global(
    g: Seq<Option<ValueView>>,
    idx: int,
    v: ValueView,
) -> Seq<Option<ValueView>> {
    let n = if idx + 1 > g.len() {
        idx + 1
    } else {
        g.len() as int
    };
    Seq::new(
        n as nat,
        |i: int|
            if i == idx {
                Some(v)
            } else if i < g.len() {
                g[i]
            } else {
                None
            },
    )
}

/// The value a comparison pushes: the number one when it holds, zero when
/// it does not.
pub open spec fn spec_bool_num(b: bool) -> ValueView {
    if b {
        ValueView::Number(Num::Finite(1_000_000))
    } else {
        ValueView::Number(Num::Finite(0))
    }
}

/// What a binary opcode pushes, given the two popped operands (`a` was
/// pushed first).
pub open spec fn binary_result(op: OpCode, a: ValueView, b: ValueView) -> ValueView {
    match op {
        OpCode::Add => value_add_spec(a, b),
        OpCode::Sub => ValueView::Number(
            crate::num::num_sub_spec(as_number_spec(a), as_number_spec(b)),
        ),
        OpCode::Mul => ValueView::Number(
            crate::num::num_mul_spec(as_number_spec(a), as_number_spec(b)),
        ),
        OpCode::Div => ValueView::Number(
            crate::num::num_div_spec(as_number_spec(a), as_number_spec(b)),
        ),
        OpCode::Eq => spec_bool_num(value_eq_spec(a, b)),
        OpCode::Gt => spec_bool_num(value_gt_spec(a, b)),
        OpCode::Lt => spec_bool_num(value_lt_spec(a, b)),
        _ => ValueView::Nil,
    }
}

/// Where a dynamic call lands: the whole part of a non-negative finite
/// number inside the 16-bit address space; anything else is no address.
pub open spec fn call_target(n: Num) -> Option<int> {
    match n {
        Num::Finite(m) => if m >= 0 && (m as int) / (SCALE as int) <= 0xffff {
            Some((m as int) / (SCALE as int))
        } else {
            None
        },
        _ => None,
    }
}

/// A sleep duration in whole milliseconds: negative and unreadable
/// durations sleep not at all.
pub open spec fn num_to_millis(n: Num) -> u64 {
    match n {
        Num::Finite(m) => if m <= 0 {
            0
        } else {
            ((m as int) / (SCALE as int)) as u64
        },
        Num::PosInf => u64::MAX,
        _ => 0,
    }
}

/// The state after halting for the given reason.
pub open spec fn spec_halt(v: VmView, r: HaltReason) -> VmView {
    VmView { halted: Some(r), ..v }
}

/// A fatal fault and the step outcome reporting it.
pub open spec fn spec_fault(v: VmView) -> (VmView, StepView) {
    (
        spec_halt(v, HaltReason::IllegalInstruction),
        StepView::Halted(HaltReason::IllegalInstruction),
    )
}

/// Pushing within capacity extends the stack; pushing past it is the
/// fatal overflow fault.
pub open spec fn spec_push_step(v: VmView, x: ValueView, ip2: int) -> (VmView, StepView) {
    if v.stack.len() >= 256 {
        (
            spec_halt(v, HaltReason::StackOverflow),
            StepView::Halted(HaltReason::StackOverflow),
        )
    } else {
        (VmView { stack: v.stack.push(x), ip: ip2, ..v }, StepView::Ran)
    }
}

/// The effect of the instruction at `v.ip`: the machine state after it,
/// and what the step reported. This is the machine's entire semantics;
/// `VM::step` is proved equal to it, arm for arm.
pub open spec fn step_spec(v: VmView, c: ChunkView) -> (VmView, StepView) {
    if v.halted is Some {
        (v, StepView::Halted(v.halted->0))
    } else if v.awaiting is Some {
        (v, StepView::Ran)
    } else if v.ip >= c.code.len() {
        (spec_halt(v, HaltReason::Done), StepView::Halted(HaltReason::Done))
    } else {
        match decode_opcode_spec(c.code[v.ip]) {
            None => spec_fault(v),
            Some(op) => step_op_spec(v, c, op),
        }
    }
}

/// The semantics of one decoded opcode; `v.ip` still points at the opcode
/// byte.
pub open spec fn step_op_spec(v: VmView, c: ChunkView, op: OpCode) -> (VmView, StepView) {
    match op {
        OpCode::Halt => (spec_halt(v, HaltReason::Done), StepView::Halted(HaltReason::Done)),
        OpCode::LoadConst => {
            if v.ip + 1 >= c.code.len() {
                spec_fault(v)
            } else {
                let idx = c.code[v.ip + 1] as int;
                if idx >= c.constants.len() {
                    spec_fault(v)
                } else {
                    spec_push_step(v, c.constants[idx], v.ip + 2)
                }
            }
        },
        OpCode::Add | OpCode::Sub | OpCode::Mul | OpCode::Div | OpCode::Eq | OpCode::Gt
            | OpCode::Lt => {
            let b = spec_top(v.stack);
            let s1 = spec_popped(v.stack);
            let a = spec_top(s1);
            let s2 = spec_popped(s1);
            let r = binary_result(op, a, b);
            spec_push_step(VmView { stack: s2, ..v }, r, v.ip + 1)
        },
        OpCode::StoreGlobal => {
            if v.ip + 1 >= c.code.len() {
                spec_fault(v)
            } else {
                let idx = c.code[v.ip + 1] as int;
                let x = spec_top(v.stack);
                (
                    VmView {
                        stack: spec_popped(v.stack),
                        globals: spec_set_global(v.globals, idx, x),
                        ip: v.ip + 2,
                        ..v
                    },
                    StepView::Ran,
                )
            }
        },
        OpCode::LoadGlobal => {
            if v.ip + 1 >= c.code.len() {
                spec_fault(v)
            } else {
                let idx = c.code[v.ip + 1] as int;
                spec_push_step(v, spec_global(v.globals, idx), v.ip + 2)
            }
        },
        OpCode::JumpIfFalse => {
            if v.ip + 2 >= c.code.len() {
                spec_fault(v)
            } else {
                let target = c.code[v.ip + 1] * 256 + c.code[v.ip + 2];
                let cond = spec_top(v.stack);
                let ip2: int = if is_truthy_spec(cond) {
                    v.ip + 3
                } else {
                    target as int
                };
                (VmView { stack: spec_popped(v.stack), ip: ip2, ..v }, StepView::Ran)
            }
        },
        OpCode::Jump => {
            if v.ip + 2 >= c.code.len() {
                spec_fault(v)
            } else {
                let target = c.code[v.ip + 1] * 256 + c.code[v.ip + 2];
                (VmView { ip: target as int, ..v }, StepView::Ran)
            }
        },
        OpCode::Pop => (
            VmView { stack: spec_popped(v.stack), ip: v.ip + 1, ..v },
            StepView::Ran,
        ),
        OpCode::Random => (
            VmView { ip: v.ip + 1, awaiting: Some(Pending::Random), ..v },
            StepView::Io(IoReqView::Random),
        ),
        OpCode::Return => {
            if v.calls.len() == 0 {
                (spec_halt(v, HaltReason::Done), StepView::Halted(HaltReason::Done))
            } else {
                (
                    VmView { calls: v.calls.drop_last(), ip: v.calls.last(), ..v },
                    StepView::Ran,
                )
            }
        },
        OpCode::Call => {
            if v.ip + 1 >= c.code.len() {
                spec_fault(v)
            } else {
                let idx = c.code[v.ip + 1] as int;
                let g = spec_global(v.globals, idx);
                match call_target(as_number_spec(g)) {
                    None => spec_fault(v),
                    Some(addr) => (
                        VmView { calls: v.calls.push(v.ip + 2), ip: addr, ..v },
                        StepView::Ran,
                    ),
                }
            }
        },
        OpCode::Print => {
            let x = spec_top(v.stack);
            let v2 = VmView { stack: spec_popped(v.stack), ip: v.ip + 1, ..v };
            match x {
                ValueView::Nil => (v2, StepView::Ran),
                _ => (v2, StepView::Io(IoReqView::Print(value_str_spec(x)))),
            }
        },
        OpCode::PrintRaw => {
            let x = spec_top(v.stack);
            let v2 = VmView { stack: spec_popped(v.stack), ip: v.ip + 1, ..v };
            match x {
                ValueView::Nil => (v2, StepView::Ran),
                _ => (v2, StepView::Io(IoReqView::PrintRaw(value_str_spec(x)))),
            }
        },
        OpCode::Sleep => {
            let x = spec_top(v.stack);
            (
                VmView { stack: spec_popped(v.stack), ip: v.ip + 1, ..v },
                StepView::Io(IoReqView::Sleep(num_to_millis(as_number_spec(x)))),
            )
        },
        OpCode::Clear => (
            VmView { ip: v.ip + 1, ..v },
            StepView::Io(IoReqView::Clear),
        ),
        OpCode::ReadLine => (
            VmView { ip: v.ip + 1, awaiting: Some(Pending::Line), ..v },
            StepView::Io(IoReqView::ReadLine),
        ),
        OpCode::ReadFile => {
            let x = spec_top(v.stack);
            (
                VmView {
                    stack: spec_popped(v.stack),
                    ip: v.ip + 1,
                    awaiting: Some(Pending::File),
                    ..v
                },
                StepView::Io(IoReqView::ReadFile(value_str_spec(x))),
            )
        },
        OpCode::WriteFile => {
            let content = spec_top(v.stack);
            let s1 = spec_popped(v.stack);
            let path = spec_top(s1);
            (
                VmView { stack: spec_popped(s1), ip: v.ip + 1, ..v },
                StepView::Io(
                    IoReqView::WriteFile(value_str_spec(path), value_str_spec(content)),
                ),
            )
        },
    }
}

impl VM {
    /// A fresh machine: empty stack, empty globals, empty call stack, at
    /// the first instruction. No state survives from any earlier run.
    pub fn new() -> (vm: VM)
        ensures
            vm@.stack.len() == 0,
            vm@.globals.len() == 0,
            vm@.calls.len() == 0,
            vm@.ip == 0,
            vm@.halted is None,
            vm@.awaiting is None,
            vm_wf(vm@),
    {
        let vm = VM {
            stack: Vec::new(),
            globals: Vec::new(),
            call_stack: Vec::new(),
            ip: 0,
            halted: None,
            awaiting: None,
        };
        proof {
            assert(vm@.stack =~= Seq::<ValueView>::empty());
            assert(vm@.globals =~= Seq::<Option<ValueView>>::empty());
            assert(vm@.calls =~= Seq::<int>::empty());
        }
        vm
    }

    /// Pops the operand stack; an empty stack yields `Nil`, not a fault.
    fn pop(&mut self) -> (r: Value)
        ensures
            r@ == spec_top(old(self)@.stack),
            final(self)@ == (VmView { stack: spec_popped(old(self)@.stack), ..old(self)@ }),
    {
        let r = match self.stack.pop() {
            Some(v) => v,
            None => Value::Nil,
        };
        proof {
            assert(stack_view(self.stack@) =~= spec_popped(stack_view(old(self).stack@)));
            assert(final(self)@ =~= (VmView {
                stack: spec_popped(old(self)@.stack),
                ..old(self)@
            }));
        }
        r
    }

    /// Pushes onto the operand stack; `false` reports that the stack was
    /// full and nothing was pushed.
    fn push(&mut self, v: Value) -> (ok: bool)
        ensures
            old(self)@.stack.len() >= 256 ==> !ok && final(self)@ == old(self)@,
            old(self)@.stack.len() < 256 ==> ok && final(self)@ == (VmView {
                stack: old(self)@.stack.push(v@),
                ..old(self)@
            }),
    {
        if self.stack.len() >= STACK_MAX {
            proof {
                assert(final(self)@ =~= old(self)@);
            }
            return false;
        }
        self.stack.push(v);
        proof {
            assert(stack_view(self.stack@) =~= stack_view(old(self).stack@).push(v@));
            assert(final(self)@ =~= (VmView { stack: old(self)@.stack.push(v@), ..old(self)@ }));
        }
        true
    }

    /// Reads a global slot; an index never stored to reads as `Nil`.
    fn get_global(&self, idx: usize) -> (r: Value)
        ensures
            r@ == spec_global(self@.globals, idx as int),
    {
        if idx < self.globals.len() {
            match &self.globals[idx] {
                Some(v) => v.duplicate(),
                None => Value::Nil,
            }
        } else {
            Value::Nil
        }
    }

    /// Stores a global slot, growing the table with empty slots up to the
    /// index first if it is new.
    fn set_global(&mut self, idx: usize, v: Value)
        requires
            idx < 256,
            old(self)@.globals.len() <= 256,
        ensures
            final(self)@ == (VmView {
                globals: spec_set_global(old(self)@.globals, idx as int, v@),
                ..old(self)@
            }),
    {
        while self.globals.len() <= idx
            invariant
                idx < 256,
                old(self).globals@.len() > idx ==> self.globals@ == old(self).globals@,
                old(self).globals@.len() <= idx ==> self.globals@.len() <= idx + 1,
                self.stack@ == old(self).stack@,
                self.call_stack@ == old(self).call_stack@,
                self.ip == old(self).ip,
                self.halted == old(self).halted,
                self.awaiting == old(self).awaiting,
                old(self).globals@.len() <= self.globals@.len(),
                forall|i: int|
                    0 <= i < old(self).globals@.len() ==> self.globals@[i]
                        == old(self).globals@[i],
                forall|i: int|
                    old(self).globals@.len() <= i < self.globals@.len()
                        ==> self.globals@[i] is None,
            decreases idx + 1 - self.globals@.len(),
        {
            self.globals.push(None);
        }
        self.globals.set(idx, Some(v));
        proof {
            assert(globals_view(self.globals@) =~= spec_set_global(
                globals_view(old(self).globals@),
                idx as int,
                v@,
            ));
            assert(final(self)@ =~= (VmView {
                globals: spec_set_global(old(self)@.globals, idx as int, v@),
                ..old(self)@
            }));
        }
    }

    /// Halts with the illegal-instruction fault.
    fn fault(&mut self) -> (r: Step)
        ensures
            final(self)@ == spec_fault(old(self)@).0,
            r@ == spec_fault(old(self)@).1,
    {
        self.halted = Some(HaltReason::IllegalInstruction);
        proof {
            assert(final(self)@ =~= spec_fault(old(self)@).0);
        }
        Step::Halted(HaltReason::IllegalInstruction)
    }

    /// Pushes a value and advances; a full stack is the fatal overflow.
    fn push_step(&mut self, x: Value, ip2: usize) -> (r: Step)
        ensures
            final(self)@ == spec_push_step(old(self)@, x@, ip2 as int).0,
            r@ == spec_push_step(old(self)@, x@, ip2 as int).1,
    {
        if self.stack.len() >= STACK_MAX {
            self.halted = Some(HaltReason::StackOverflow);
            proof {
                assert(final(self)@ =~= spec_push_step(old(self)@, x@, ip2 as int).0);
            }
            return Step::Halted(HaltReason::StackOverflow);
        }
        self.stack.push(x);
        self.ip = ip2;
        proof {
            assert(stack_view(self.stack@) =~= stack_view(old(self).stack@).push(x@));
            assert(final(self)@ =~= spec_push_step(old(self)@, x@, ip2 as int).0);
        }
        Step::Ran
    }

    /// Executes exactly one instruction; the machine's whole effect is
    /// the transition `step_spec`.
    pub fn step(&mut self, chunk: &Chunk) -> (r: Step)
        requires
            vm_wf(old(self)@),
            chunk_wf(chunk@),
            old(self)@.awaiting is None,
        ensures
            final(self)@ == step_spec(old(self)@, chunk@).0,
            r@ == step_spec(old(self)@, chunk@).1,
            vm_wf(final(self)@),
    {
        match self.halted {
            Some(reason) => {
                return Step::Halted(reason);
            },
            None => {},
        }
        let clen = chunk.code.len();
        if self.ip >= clen {
            self.halted = Some(HaltReason::Done);
            proof {
                assert(final(self)@ =~= spec_halt(old(self)@, HaltReason::Done));
            }
            return Step::Halted(HaltReason::Done);
        }
        let op = match OpCode::decode(chunk.code[self.ip]) {
            Some(op) => op,
            None => {
                return self.fault();
            },
        };
        match op {
            OpCode::Halt => {
                self.halted = Some(HaltReason::Done);
                proof {
                    assert(final(self)@ =~= spec_halt(old(self)@, HaltReason::Done));
                }
                Step::Halted(HaltReason::Done)
            },
            OpCode::LoadConst => {
                if self.ip + 1 >= clen {
                    return self.fault();
                }
                let idx = chunk.code[self.ip + 1] as usize;
                if idx >= chunk.constants.len() {
                    return self.fault();
                }
                proof {
                    assert(chunk@.constants[idx as int] == chunk.constants@[idx as int]@);
                    assert(value_wf(chunk@.constants[idx as int]));
                }
                let val = chunk.constants[idx].duplicate();
                let ip2 = self.ip + 2;
                self.push_step(val, ip2)
            },
            OpCode::Add => {
                let (a, b) = self.pop_two();
                let rv = crate::value::value_add(a, b);
                let ip2 = self.ip + 1;
                self.push_step(rv, ip2)
            },
            OpCode::Sub => {
                let (a, b) = self.pop_two();
                let rv = Value::Number(crate::num::num_sub(a.as_number(), b.as_number()));
                let ip2 = self.ip + 1;
                self.push_step(rv, ip2)
            },
            OpCode::Mul => {
                let (a, b) = self.pop_two();
                let rv = Value::Number(crate::num::num_mul(a.as_number(), b.as_number()));
                let ip2 = self.ip + 1;
                self.push_step(rv, ip2)
            },
            OpCode::Div => {
                let (a, b) = self.pop_two();
                let rv = Value::Number(crate::num::num_div(a.as_number(), b.as_number()));
                let ip2 = self.ip + 1;
                self.push_step(rv, ip2)
            },
            OpCode::Eq => {
                let (a, b) = self.pop_two();
                let rv = bool_value(crate::value::value_eq(&a, &b));
                let ip2 = self.ip + 1;
                self.push_step(rv, ip2)
            },
            OpCode::Gt => {
                let (a, b) = self.pop_two();
                let rv = bool_value(crate::value::value_gt(&a, &b));
                let ip2 = self.ip + 1;
                self.push_step(rv, ip2)
            },
            OpCode::Lt => {
                let (a, b) = self.pop_two();
                let rv = bool_value(crate::value::value_lt(&a, &b));
                let ip2 = self.ip + 1;
                self.push_step(rv, ip2)
            },
            OpCode::StoreGlobal => {
                if self.ip + 1 >= clen {
                    return self.fault();
                }
                let idx = chunk.code[self.ip + 1] as usize;
                let x = self.pop();
                self.set_global(idx, x);
                self.ip = self.ip + 2;
                proof {
                    assert(final(self)@ =~= step_spec(old(self)@, chunk@).0);
                }
                Step::Ran
            },
            OpCode::LoadGlobal => {
                if self.ip + 1 >= clen {
                    return self.fault();
                }
                let idx = chunk.code[self.ip + 1] as usize;
                let g = self.get_global(idx);
                let ip2 = self.ip + 2;
                self.push_step(g, ip2)
            },
            OpCode::JumpIfFalse => {
                if clen - self.ip <= 2 {
                    return self.fault();
                }
                let target = (chunk.code[self.ip + 1] as usize) * 256 + (chunk.code[self.ip
                    + 2] as usize);
                let cond = self.pop();
                if cond.is_truthy() {
                    self.ip = self.ip + 3;
                } else {
                    self.ip = target;
                }
                proof {
                    assert(final(self)@ =~= step_spec(old(self)@, chunk@).0);
                }
                Step::Ran
            },
            OpCode::Jump => {
                if clen - self.ip <= 2 {
                    return self.fault();
                }
                let target = (chunk.code[self.ip + 1] as usize) * 256 + (chunk.code[self.ip
                    + 2] as usize);
                self.ip = target;
                proof {
                    assert(final(self)@ =~= step_spec(old(self)@, chunk@).0);
                }
                Step::Ran
            },
            OpCode::Pop => {
                let _ = self.pop();
                self.ip = self.ip + 1;
                proof {
                    assert(final(self)@ =~= step_spec(old(self)@, chunk@).0);
                }
                Step::Ran
            },
            OpCode::Random => {
                self.ip = self.ip + 1;
                self.awaiting = Some(Pending::Random);
                proof {
                    assert(final(self)@ =~= step_spec(old(self)@, chunk@).0);
                }
                Step::Io(IoReq::Random)
            },
            OpCode::Return => {
                match self.call_stack.pop() {
                    Some(addr) => {
                        self.ip = addr;
                        proof {
                            assert(Seq::new(
                                self.call_stack@.len(),
                                |i: int| self.call_stack@[i] as int,
                            ) =~= old(self)@.calls.drop_last());
                            assert(final(self)@ =~= step_spec(old(self)@, chunk@).0);
                        }
                        Step::Ran
                    },
                    None => {
                        self.halted = Some(HaltReason::Done);
                        proof {
                            assert(final(self)@ =~= spec_halt(old(self)@, HaltReason::Done));
                        }
                        Step::Halted(HaltReason::Done)
                    },
                }
            },
            OpCode::Call => {
                if self.ip + 1 >= clen {
                    return self.fault();
                }
                let idx = chunk.code[self.ip + 1] as usize;
                let g = self.get_global(idx);
                proof {
                    assert(value_wf(g@));
                }
                let n = g.as_number();
                match n {
                    Num::Finite(m) => {
                        if m < 0 {
                            return self.fault();
                        }
                        let q = (m as u64) / (SCALE as u64);
                        if q > 0xffff {
                            return self.fault();
                        }
                        self.call_stack.push(self.ip + 2);
                        self.ip = q as usize;
                        proof {
                            assert(Seq::new(
                                self.call_stack@.len(),
                                |i: int| self.call_stack@[i] as int,
                            ) =~= old(self)@.calls.push(old(self)@.ip + 2));
                            assert(final(self)@ =~= step_spec(old(self)@, chunk@).0);
                        }
                        Step::Ran
                    },
                    _ => self.fault(),
                }
            },
            OpCode::Print => {
                let x = self.pop();
                self.ip = self.ip + 1;
                proof {
                    assert(final(self)@ =~= step_spec(old(self)@, chunk@).0);
                }
                match x {
                    Value::Nil => Step::Ran,
                    _ => Step::Io(IoReq::Print(x.to_text())),
                }
            },
            OpCode::PrintRaw => {
                let x = self.pop();
                self.ip = self.ip + 1;
                proof {
                    assert(final(self)@ =~= step_spec(old(self)@, chunk@).0);
                }
                match x {
                    Value::Nil => Step::Ran,
                    _ => Step::Io(IoReq::PrintRaw(x.to_text())),
                }
            },
            OpCode::Sleep => {
                let x = self.pop();
                self.ip = self.ip + 1;
                let ms = millis_of(x.as_number());
                proof {
                    assert(final(self)@ =~= step_spec(old(self)@, chunk@).0);
                }
                Step::Io(IoReq::Sleep(ms))
            },
            OpCode::Clear => {
                self.ip = self.ip + 1;
                proof {
                    assert(final(self)@ =~= step_spec(old(self)@, chunk@).0);
                }
                Step::Io(IoReq::Clear)
            },
            OpCode::ReadLine => {
                self.ip = self.ip + 1;
                self.awaiting = Some(Pending::Line);
                proof {
                    assert(final(self)@ =~= step_spec(old(self)@, chunk@).0);
                }
                Step::Io(IoReq::ReadLine)
            },
            OpCode::ReadFile => {
                let x = self.pop();
                self.ip = self.ip + 1;
                self.awaiting = Some(Pending::File);
                let path = x.to_text();
                proof {
                    assert(final(self)@ =~= step_spec(old(self)@, chunk@).0);
                }
                Step::Io(IoReq::ReadFile(path))
            },
            OpCode::WriteFile => {
                let content = self.pop();
                let path = self.pop();
                self.ip = self.ip + 1;
                let path_s = path.to_text();
                let content_s = content.to_text();
                proof {
                    assert(final(self)@ =~= step_spec(old(self)@, chunk@).0);
                }
                Step::Io(IoReq::WriteFile(path_s, content_s))
            },
        }
    }

    /// Pops the two operands of a binary opcode: the right one first, then
    /// the left.
    fn pop_two(&mut self) -> (r: (Value, Value))
        requires
            vm_wf(old(self)@),
        ensures
            r.1@ == spec_top(old(self)@.stack),
            r.0@ == spec_top(spec_popped(old(self)@.stack)),
            final(self)@ == (VmView {
                stack: spec_popped(spec_popped(old(self)@.stack)),
                ..old(self)@
            }),
            value_wf(r.0@),
            value_wf(r.1@),
    {
        let b = self.pop();
        let a = self.pop();
        proof {
            assert(final(self)@ =~= (VmView {
                stack: spec_popped(spec_popped(old(self)@.stack)),
                ..old(self)@
            }));
        }
        (a, b)
    }
}

/// ASCII whitespace, the set a read line is trimmed of.
pub open spec fn is_ws(c: char) -> bool {
    c == ' ' || c == '\t' || c == '\r' || c == '\n'
}

/// The text with leading and trailing whitespace removed.
pub open spec fn trim_spec(s: Seq<char>) -> Seq<char>
    decreases s.len(),
{
    if s.len() > 0 && is_ws(s[0]) {
        trim_spec(s.skip(1))
    } else if s.len() > 0 && is_ws(s.last()) {
        trim_spec(s.drop_last())
    } else {
        s
    }
}

proof fn lemma_trim_range(s: Seq<char>, i: int, j: int)
    requires
        0 <= i <= j <= s.len(),
        forall|t: int| 0 <= t < i ==> is_ws(s[t]),
        forall|t: int| j <= t < s.len() ==> is_ws(s[t]),
        i < j ==> !is_ws(s[i]) && !is_ws(s[j - 1]),
    ensures
        trim_spec(s) == s.subrange(i, j),
    decreases s.len(),
{
    if s.len() == 0 {
        assert(s.subrange(i, j) =~= s);
    } else if is_ws(s[0]) {
        if i > 0 {
            lemma_trim_range(s.skip(1), i - 1, j - 1);
            assert(s.skip(1).subrange(i - 1, j - 1) =~= s.subrange(i, j));
        } else {
            // The whole text is whitespace, so both bounds sit at zero.
            assert(i == j);
            lemma_trim_range(s.skip(1), 0, 0);
            assert(s.skip(1).subrange(0, 0) =~= s.subrange(i, j));
        }
    } else if is_ws(s.last()) {
        assert(j < s.len());
        lemma_trim_range(s.drop_last(), i, j);
        assert(s.drop_last().subrange(i, j) =~= s.subrange(i, j));
    } else {
        assert(i == 0 && j == s.len());
        assert(s.subrange(0, s.len() as int) =~= s);
    }
}

/// The state after a reply value is handed back: the value pushed and the
/// wait cleared, or the overflow fault if the stack is full. A reply
/// nothing awaits changes nothing.
pub open spec fn spec_reply(v: VmView, x: ValueView) -> VmView {
    if v.stack.len() >= 256 {
        VmView { halted: Some(HaltReason::StackOverflow), awaiting: None, ..v }
    } else {
        VmView { stack: v.stack.push(x), awaiting: None, ..v }
    }
}

/// What a line read pushes: the line, trimmed of surrounding whitespace.
pub open spec fn provide_line_spec(v: VmView, line: Seq<char>) -> VmView {
    if v.awaiting == Some(Pending::Line) {
        spec_reply(v, ValueView::Str(trim_spec(line)))
    } else {
        v
    }
}

/// What a file read pushes: the contents as text, or the text `0` when
/// the file was absent or unreadable — never a fault.
pub open spec fn provide_file_spec(v: VmView, content: Option<Seq<char>>) -> VmView {
    if v.awaiting == Some(Pending::File) {
        match content {
            Some(c) => spec_reply(v, ValueView::Str(c)),
            None => spec_reply(v, ValueView::Str("0"@)),
        }
    } else {
        v
    }
}

/// What a random draw pushes: the whole number drawn.
pub open spec fn provide_random_spec(v: VmView, n: int) -> VmView {
    if v.awaiting == Some(Pending::Random) {
        spec_reply(v, ValueView::Number(crate::num::num_from_int_spec(n)))
    } else {
        v
    }
}

impl VM {
    /// Runs up to `fuel` single steps, stopping early when the machine
    /// halts or needs the world. On an `Io` outcome the caller performs
    /// the request, answers it if it has an answer, and calls `run`
    /// again; a `Ran` outcome only reports the budget spent, and calling
    /// again continues. A program may loop forever, so some finite budget
    /// per call is the caller's choice.
    ///
    /// The loop is exactly iterated `step_spec`: the state after the call
    /// is `stepk` of the state before, every step but the last merely
    /// ran, and the returned outcome is the last step's.
    pub fn run(&mut self, chunk: &Chunk, fuel: u64) -> (r: Step)
        requires
            vm_wf(old(self)@),
            chunk_wf(chunk@),
            old(self)@.awaiting is None,
        ensures
            vm_wf(final(self)@),
            r@ is Ran || r@ is Halted ==> final(self)@.awaiting is None,
            forall|h: HaltReason| r@ == StepView::Halted(h) ==> final(self)@.halted == Some(h),
            r@ is Ran ==> final(self)@ == stepk(old(self)@, chunk@, fuel as nat)
                && ran_through(old(self)@, chunk@, fuel as nat),
            !(r@ is Ran) ==> exists|k: nat|
                #![trigger stepk(old(self)@, chunk@, k)]
                1 <= k <= fuel
                && ran_through(old(self)@, chunk@, (k - 1) as nat)
                && r@ == step_spec(stepk(old(self)@, chunk@, (k - 1) as nat), chunk@).1
                && final(self)@ == stepk(old(self)@, chunk@, k),
    {
        let mut left = fuel;
        let ghost mut done: nat = 0;
        while left > 0
            invariant
                vm_wf(self@),
                chunk_wf(chunk@),
                self@.awaiting is None,
                done + left == fuel,
                self@ == stepk(old(self)@, chunk@, done),
                ran_through(old(self)@, chunk@, done),
            decreases left,
        {
            proof {
                lemma_step_keeps_awaiting(self@, chunk@);
                lemma_step_halt_reason(self@, chunk@);
                lemma_stepk_snoc(old(self)@, chunk@, done);
            }
            let s = self.step(chunk);
            proof {
                done = done + 1;
            }
            match s {
                Step::Ran => {
                    proof {
                        assert forall|j: nat| j < done implies #[trigger] step_spec(
                            stepk(old(self)@, chunk@, j),
                            chunk@,
                        ).1 is Ran by {
                        }
                    }
                },
                _ => {
                    return s;
                },
            }
            left = left - 1;
        }
        Step::Ran
    }

    /// Answers a pending line read: the line is pushed trimmed of
    /// surrounding whitespace. A line nothing awaits is ignored.
    pub fn provide_line(&mut self, line: &str)
        requires
            vm_wf(old(self)@),
        ensures
            final(self)@ == provide_line_spec(old(self)@, line@),
            vm_wf(final(self)@),
    {
        let is_pending = matches!(self.awaiting, Some(Pending::Line));
        if !is_pending {
            return;
        }
        let n = line.unicode_len();
        let mut i: usize = 0;
        while i < n && is_ws_exec(line.get_char(i))
            invariant
                n == line@.len(),
                i <= n,
                forall|t: int| 0 <= t < i ==> is_ws(line@[t]),
            decreases n - i,
        {
            i = i + 1;
        }
        let mut j: usize = n;
        while j > i && is_ws_exec(line.get_char(j - 1))
            invariant
                n == line@.len(),
                i <= j <= n,
                forall|t: int| j <= t < n ==> is_ws(line@[t]),
                forall|t: int| 0 <= t < i ==> is_ws(line@[t]),
                i < n ==> !is_ws(line@[i as int]),
            decreases j,
        {
            j = j - 1;
        }
        proof {
            lemma_trim_range(line@, i as int, j as int);
        }
        let trimmed = line.substring_char(i, j).to_owned();
        self.reply(Value::Str(trimmed));
    }

    /// Answers a pending file read: the contents are pushed as text, an
    /// absent or unreadable file as the text `0`, never a fault.
    pub fn provide_file(&mut self, content: Option<String>)
        requires
            vm_wf(old(self)@),
        ensures
            final(self)@ == provide_file_spec(
                old(self)@,
                match content {
                    Some(c) => Some(c@),
                    None => None,
                },
            ),
            vm_wf(final(self)@),
    {
        let is_pending = matches!(self.awaiting, Some(Pending::File));
        if !is_pending {
            return;
        }
        let v = match content {
            Some(c) => Value::Str(c),
            None => Value::Str("0".to_owned()),
        };
        self.reply(v);
    }

    /// Answers a pending random draw with a whole number.
    pub fn provide_random(&mut self, n: i64)
        requires
            vm_wf(old(self)@),
        ensures
            final(self)@ == provide_random_spec(old(self)@, n as int),
            vm_wf(final(self)@),
    {
        let is_pending = matches!(self.awaiting, Some(Pending::Random));
        if !is_pending {
            return;
        }
        self.reply(Value::Number(Num::from_int(n)));
    }

    /// Pushes a reply value and clears the wait.
    fn reply(&mut self, x: Value)
        requires
            value_wf(x@),
            vm_wf(old(self)@),
        ensures
            final(self)@ == spec_reply(old(self)@, x@),
            vm_wf(final(self)@),
    {
        self.awaiting = None;
        if self.stack.len() >= STACK_MAX {
            self.halted = Some(HaltReason::StackOverflow);
            proof {
                assert(final(self)@ =~= spec_reply(old(self)@, x@));
            }
            return;
        }
        self.stack.push(x);
        proof {
            assert(stack_view(self.stack@) =~= stack_view(old(self).stack@).push(x@));
            assert(final(self)@ =~= spec_reply(old(self)@, x@));
        }
    }
}

/// Law: a store immediately followed by a load of the same name reads
/// back exactly the value the store consumed. For any running,
/// well-formed machine whose next two instructions are a store and a load
/// of one global slot, both steps merely run, and after them the top of
/// the stack is the value that was on top before — the stored value.
pub proof fn lemma_store_load_roundtrip(v: VmView, c: ChunkView, g: u8)
    requires
        vm_wf(v),
        v.halted is None,
        v.awaiting is None,
        v.ip + 4 <= c.code.len(),
        c.code[v.ip] == opcode_byte_spec(OpCode::StoreGlobal),
        c.code[v.ip + 1] == g,
        c.code[v.ip + 2] == opcode_byte_spec(OpCode::LoadGlobal),
        c.code[v.ip + 3] == g,
    ensures
        step_spec(v, c).1 is Ran,
        step_spec(step_spec(v, c).0, c).1 is Ran,
        step_spec(step_spec(v, c).0, c).0.stack == spec_popped(v.stack).push(spec_top(v.stack)),
        spec_top(step_spec(step_spec(v, c).0, c).0.stack) == spec_top(v.stack),
        step_spec(step_spec(v, c).0, c).0.ip == v.ip + 4,
{
    let v1 = step_spec(v, c).0;
    assert(v1.globals == spec_set_global(v.globals, g as int, spec_top(v.stack)));
    assert(spec_global(v1.globals, g as int) == spec_top(v.stack));
    let v2 = step_spec(v1, c).0;
    assert(v2.stack == spec_popped(v.stack).push(spec_top(v.stack)));
}

/// Law (loop exit): when the instruction at hand is the conditional jump
/// that guards a loop and the condition on top of the stack is falsy, the
/// machine resumes exactly at the jump's operand — for a compiled loop,
/// the first instruction after it; when the condition is truthy, it falls
/// through into the body. Either way the condition is consumed.
pub proof fn lemma_loop_guard(v: VmView, c: ChunkView)
    requires
        vm_wf(v),
        v.halted is None,
        v.awaiting is None,
        v.ip + 3 <= c.code.len(),
        c.code[v.ip] == opcode_byte_spec(OpCode::JumpIfFalse),
    ensures
        step_spec(v, c).1 is Ran,
        step_spec(v, c).0.stack == spec_popped(v.stack),
        !is_truthy_spec(spec_top(v.stack)) ==> step_spec(v, c).0.ip == c.code[v.ip + 1] * 256
            + c.code[v.ip + 2],
        is_truthy_spec(spec_top(v.stack)) ==> step_spec(v, c).0.ip == v.ip + 3,
{
}

/// The machine state after `k` steps, ignoring what each step reported.
pub open spec fn stepk(v: VmView, c: ChunkView, k: nat) -> VmView
    decreases k,
{
    if k == 0 {
        v
    } else {
        stepk(step_spec(v, c).0, c, (k - 1) as nat)
    }
}

/// The first `k` steps from `v` each reported that they merely ran.
pub open spec fn ran_through(v: VmView, c: ChunkView, k: nat) -> bool {
    forall|j: nat| j < k ==> #[trigger] step_spec(stepk(v, c, j), c).1 is Ran
}

/// Iterated stepping composes one step at a time at the back.
pub proof fn lemma_stepk_snoc(v: VmView, c: ChunkView, k: nat)
    ensures
        stepk(v, c, k + 1) == step_spec(stepk(v, c, k), c).0,
    decreases k,
{
    reveal_with_fuel(stepk, 3);
    if k > 0 {
        lemma_stepk_snoc(step_spec(v, c).0, c, (k - 1) as nat);
    }
}

/// The compiled form of the canonical counting loop
/// `lap i < n { i = i + 1 }`, laid out from address zero: the guard loads
/// the counter and the bound, compares, and jumps past the loop when the
/// comparison fails; the body increments the counter and jumps back to
/// the guard. `g` is the counter's name-pool slot, `kn` and `k1` the
/// constant-pool slots of the bound and of one.
pub open spec fn counting_loop_code(g: u8, kn: u8, k1: u8) -> Seq<u8> {
    seq![
        opcode_byte_spec(OpCode::LoadGlobal), g,
        opcode_byte_spec(OpCode::LoadConst), kn,
        opcode_byte_spec(OpCode::Lt),
        opcode_byte_spec(OpCode::JumpIfFalse), 0, 18,
        opcode_byte_spec(OpCode::LoadGlobal), g,
        opcode_byte_spec(OpCode::LoadConst), k1,
        opcode_byte_spec(OpCode::Add),
        opcode_byte_spec(OpCode::StoreGlobal), g,
        opcode_byte_spec(OpCode::Jump), 0, 0,
    ]
}

/// Law (loop count): the canonical counting loop runs its body exactly
/// once for each whole number from the counter's starting value up to the
/// bound, and control then resumes at the first instruction after the
/// loop. The guard takes four steps and each iteration nine, so from
/// counter `i` the machine reaches the loop's end in exactly
/// `4 + 9 * (n - i)` steps, with the counter at the bound, the stack and
/// call stack exactly as they were, and no halt and no pending request on
/// the way out.
pub proof fn lemma_counting_loop(v: VmView, c: ChunkView, g: u8, kn: u8, k1: u8, i: int, n: int)
    requires
        v.ip == 0,
        v.halted is None,
        v.awaiting is None,
        v.stack.len() == 0,
        (g as int) < v.globals.len(),
        spec_global(v.globals, g as int) == ValueView::Number(
            Num::Finite((i * 1_000_000) as i64),
        ),
        c.code == counting_loop_code(g, kn, k1),
        (kn as int) < c.constants.len(),
        c.constants[kn as int] == ValueView::Number(Num::Finite((n * 1_000_000) as i64)),
        (k1 as int) < c.constants.len(),
        c.constants[k1 as int] == ValueView::Number(Num::Finite(1_000_000)),
        0 <= i <= n,
        n * 1_000_000 <= crate::num::MAX_FINITE as int,
    ensures
        stepk(v, c, (4 + 9 * (n - i)) as nat).ip == c.code.len(),
        stepk(v, c, (4 + 9 * (n - i)) as nat).halted is None,
        stepk(v, c, (4 + 9 * (n - i)) as nat).awaiting is None,
        stepk(v, c, (4 + 9 * (n - i)) as nat).stack == v.stack,
        stepk(v, c, (4 + 9 * (n - i)) as nat).calls == v.calls,
        spec_global(stepk(v, c, (4 + 9 * (n - i)) as nat).globals, g as int)
            == ValueView::Number(Num::Finite((n * 1_000_000) as i64)),
    decreases n - i,
{
    reveal_with_fuel(stepk, 11);
    let iv = ValueView::Number(Num::Finite((i * 1_000_000) as i64));
    let nv = ValueView::Number(Num::Finite((n * 1_000_000) as i64));
    // The guard: load the counter, load the bound, compare, branch.
    let s1 = step_spec(v, c).0;
    assert(s1 =~= (VmView { stack: v.stack.push(iv), ip: 2, ..v }));
    let s2 = step_spec(s1, c).0;
    assert(s2 =~= (VmView { stack: v.stack.push(iv).push(nv), ip: 4, ..v }));
    let s3 = step_spec(s2, c).0;
    let cond = spec_bool_num(i * 1_000_000 < n * 1_000_000);
    assert(binary_result(OpCode::Lt, iv, nv) == cond);
    assert(s3 =~= (VmView { stack: v.stack.push(cond), ip: 5, ..v }));
    let s4 = step_spec(s3, c).0;
    if i == n {
        // The comparison fails: the guard jumps to the loop's end.
        assert(!is_truthy_spec(cond));
        assert(s4 =~= (VmView { ip: 18, ..v }));
        assert(stepk(v, c, 4nat) == s4);
    } else {
        // The comparison holds: fall into the body, step the counter,
        // and return to the guard one count further along.
        assert(i * 1_000_000 < n * 1_000_000) by (nonlinear_arith)
            requires
                i < n,
        ;
        assert(is_truthy_spec(cond));
        assert(s4 =~= (VmView { ip: 8, ..v }));
        let s5 = step_spec(s4, c).0;
        assert(s5 =~= (VmView { stack: v.stack.push(iv), ip: 10, ..v }));
        let s6 = step_spec(s5, c).0;
        let one = ValueView::Number(Num::Finite(1_000_000));
        assert(s6 =~= (VmView { stack: v.stack.push(iv).push(one), ip: 12, ..v }));
        let s7 = step_spec(s6, c).0;
        let iv1 = ValueView::Number(Num::Finite(((i + 1) * 1_000_000) as i64));
        assert((i + 1) * 1_000_000 <= n * 1_000_000) by (nonlinear_arith)
            requires
                i + 1 <= n,
        ;
        assert(binary_result(OpCode::Add, iv, one) == iv1) by {
            assert(i * 1_000_000 + 1_000_000 == (i + 1) * 1_000_000) by (nonlinear_arith);
        }
        assert(s7 =~= (VmView { stack: v.stack.push(iv1), ip: 13, ..v }));
        let s8 = step_spec(s7, c).0;
        let g2 = spec_set_global(v.globals, g as int, iv1);
        assert(s8 =~= (VmView { stack: v.stack, globals: g2, ip: 15, ..v }));
        let s9 = step_spec(s8, c).0;
        assert(s9 =~= (VmView { stack: v.stack, globals: g2, ip: 0, ..v }));
        assert(spec_global(g2, g as int) == iv1);
        assert(g2.len() == v.globals.len());
        lemma_counting_loop(s9, c, g, kn, k1, i + 1, n);
        // Nine steps of this iteration, then the rest by induction.
        assert(stepk(v, c, (4 + 9 * (n - i)) as nat) == stepk(
            s9,
            c,
            (4 + 9 * (n - i - 1)) as nat,
        ));
    }
}

/// Law (loop back edge): the unconditional jump a compiled loop ends
/// with resumes exactly at its operand — the loop head, where the
/// condition is evaluated again. Together with the guard law this pins
/// the whole control skeleton of a compiled loop: a truthy condition
/// falls into the body, the body's end returns to the head, and a falsy
/// condition resumes at the first instruction after the loop.
pub proof fn lemma_loop_back_edge(v: VmView, c: ChunkView)
    requires
        vm_wf(v),
        v.halted is None,
        v.awaiting is None,
        v.ip + 3 <= c.code.len(),
        c.code[v.ip] == opcode_byte_spec(OpCode::Jump),
    ensures
        step_spec(v, c).1 is Ran,
        step_spec(v, c).0.ip == c.code[v.ip + 1] * 256 + c.code[v.ip + 2],
        step_spec(v, c).0.stack == v.stack,
{
}

/// Law: a division whose divisor reads as zero pushes a non-finite
/// number — an infinity or `NaN` — and never faults.
pub proof fn lemma_div_by_zero_non_finite(a: ValueView, b: ValueView)
    requires
        as_number_spec(b) == Num::Finite(0i64),
    ensures
        binary_result(OpCode::Div, a, b) matches ValueView::Number(n) && !(n is Finite),
{
}

/// Law: whatever the generator returned within its bounds, answering a
/// pending random draw pushes an integer-valued number between one and
/// ten inclusive — never text, never `Nil`.
pub proof fn lemma_random_reply_in_range(v: VmView, n: int)
    requires
        v.awaiting == Some(Pending::Random),
        v.stack.len() < 256,
        1 <= n <= 10,
    ensures
        provide_random_spec(v, n).stack.last() == ValueView::Number(
            Num::Finite((n * 1_000_000) as i64),
        ),
        1_000_000 <= n * 1_000_000 <= 10_000_000,
{
}

/// A step that reports a halt records the same reason in the state.
proof fn lemma_step_halt_reason(v: VmView, c: ChunkView)
    ensures
        forall|h: HaltReason|
            step_spec(v, c).1 == StepView::Halted(h) ==> step_spec(v, c).0.halted == Some(h),
{
}

/// A step that merely ran leaves the machine awaiting nothing: only a
/// step that hands out a request can set a pending wait.
proof fn lemma_step_keeps_awaiting(v: VmView, c: ChunkView)
    requires
        v.awaiting is None,
    ensures
        step_spec(v, c).1 is Ran ==> step_spec(v, c).0.awaiting is None,
{
}

fn is_ws_exec(c: char) -> (r: bool)
    ensures
        r == is_ws(c),
{
    c == ' ' || c == '\t' || c == '\r' || c == '\n'
}

/// Relies on rand's `gen_range` on the inclusive integer range from one
/// to ten: the draw lies within the bounds. Nothing else is assumed of
/// it; two draws may differ.
#[verifier::external_body]
fn draw_between_1_and_10() -> (r: i64)
    ensures
        1 <= r <= 10,
{
    rand::Rng::gen_range(&mut rand::thread_rng(), 1i64..=10i64)
}

/// One random draw as a whole number: always between one and ten
/// inclusive, whatever the underlying generator returns.
pub fn random_draw() -> (r: i64)
    ensures
        1 <= r <= 10,
{
    draw_between_1_and_10()
}

/// One random draw as a runtime value: always an integer-valued `Number`
/// between one and ten inclusive — never `Str`, never `Nil` — whatever
/// the underlying generator returns.
pub fn random_value() -> (r: Value)
    ensures
        exists|k: int|
            1 <= k <= 10 && r@ == ValueView::Number(crate::num::num_from_int_spec(k)),
        value_wf(r@),
{
    let k = draw_between_1_and_10();
    let n = Num::from_int(k);
    proof {
        assert(1 <= k as int <= 10);
    }
    Value::Number(n)
}

/// The value a comparison pushes.
fn bool_value(b: bool) -> (r: Value)
    ensures
        r@ == spec_bool_num(b),
        value_wf(r@),
{
    if b {
        Value::Number(Num::Finite(1_000_000))
    } else {
        Value::Number(Num::Finite(0))
    }
}

/// A sleep duration in whole milliseconds.
fn millis_of(n: Num) -> (r: u64)
    requires
        num_wf(n),
    ensures
        r == num_to_millis(n),
{
    match n {
        Num::Finite(m) => {
            if m <= 0 {
                0
            } else {
                (m as u64) / (SCALE as u64)
            }
        },
        Num::PosInf => u64::MAX,
        _ => 0,
    }
}

} // verus!
