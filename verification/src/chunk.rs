//! The compiled artifact: an instruction stream of bytes, a constant pool,
//! a name pool, and the fixed opcode numbering, together with the persisted
//! binary form a chunk can be written to and read back from without the
//! compiler.

use vstd::prelude::*;
use crate::num::{num_wf, Num, MAX_FINITE};
use crate::value::{as_number_spec, value_wf, Value, ValueView};
use crate::error::VlError;

verus! {

/// The instruction set of the virtual machine.
#[derive(Clone, Copy, Debug, PartialEq, Eq, Structural)]
pub enum OpCode {
    Halt,
    LoadConst,
    Add,
    Sub,
    Mul,
    Div,
    StoreGlobal,
    LoadGlobal,
    Print,
    Eq,
    JumpIfFalse,
    Jump,
    Gt,
    Lt,
    Pop,
    Random,
    Return,
    Call,
    ReadFile,
    Sleep,
    Clear,
    ReadLine,
    WriteFile,
    PrintRaw,
}

/// The byte each opcode is encoded as in the instruction stream.
pub open spec fn opcode_byte_spec(op: OpCode) -> u8 {
    match op {
        OpCode::Halt => 0,
        OpCode::LoadConst => 1,
        OpCode::Add => 2,
        OpCode::Sub => 3,
        OpCode::Mul => 4,
        OpCode::Div => 5,
        OpCode::StoreGlobal => 6,
        OpCode::LoadGlobal => 7,
        OpCode::Print => 8,
        OpCode::Eq => 9,
        OpCode::JumpIfFalse => 10,
        OpCode::Jump => 11,
        OpCode::Gt => 12,
        OpCode::Lt => 13,
        OpCode::Pop => 14,
        OpCode::Random => 15,
        OpCode::Return => 17,
        OpCode::Call => 18,
        OpCode::ReadFile => 20,
        OpCode::Sleep => 21,
        OpCode::Clear => 22,
        OpCode::ReadLine => 23,
        OpCode::WriteFile => 24,
        OpCode::PrintRaw => 25,
    }
}

/// The opcode a byte decodes to, if it is one.
pub open spec fn decode_opcode_spec(b: u8) -> Option<OpCode> {
    if b == 0 {
        Some(OpCode::Halt)
    } else if b == 1 {
        Some(OpCode::LoadConst)
    } else if b == 2 {
        Some(OpCode::Add)
    } else if b == 3 {
        Some(OpCode::Sub)
    } else if b == 4 {
        Some(OpCode::Mul)
    } else if b == 5 {
        Some(OpCode::Div)
    } else if b == 6 {
        Some(OpCode::StoreGlobal)
    } else if b == 7 {
        Some(OpCode::LoadGlobal)
    } else if b == 8 {
        Some(OpCode::Print)
    } else if b == 9 {
        Some(OpCode::Eq)
    } else if b == 10 {
        Some(OpCode::JumpIfFalse)
    } else if b == 11 {
        Some(OpCode::Jump)
    } else if b == 12 {
        Some(OpCode::Gt)
    } else if b == 13 {
        Some(OpCode::Lt)
    } else if b == 14 {
        Some(OpCode::Pop)
    } else if b == 15 {
        Some(OpCode::Random)
    } else if b == 17 {
        Some(OpCode::Return)
    } else if b == 18 {
        Some(OpCode::Call)
    } else if b == 20 {
        Some(OpCode::ReadFile)
    } else if b == 21 {
        Some(OpCode::Sleep)
    } else if b == 22 {
        Some(OpCode::Clear)
    } else if b == 23 {
        Some(OpCode::ReadLine)
    } else if b == 24 {
        Some(OpCode::WriteFile)
    } else if b == 25 {
        Some(OpCode::PrintRaw)
    } else {
        None
    }
}

impl OpCode {
    /// The byte this opcode is emitted as.
    pub fn byte(self) -> (b: u8)
        ensures
            b == opcode_byte_spec(self),
            decode_opcode_spec(b) == Some(self),
    {
        match self {
            OpCode::Halt => 0,
            OpCode::LoadConst => 1,
            OpCode::Add => 2,
            OpCode::Sub => 3,
            OpCode::Mul => 4,
            OpCode::Div => 5,
            OpCode::StoreGlobal => 6,
            OpCode::LoadGlobal => 7,
            OpCode::Print => 8,
            OpCode::Eq => 9,
            OpCode::JumpIfFalse => 10,
            OpCode::Jump => 11,
            OpCode::Gt => 12,
            OpCode::Lt => 13,
            OpCode::Pop => 14,
            OpCode::Random => 15,
            OpCode::Return => 17,
            OpCode::Call => 18,
            OpCode::ReadFile => 20,
            OpCode::Sleep => 21,
            OpCode::Clear => 22,
            OpCode::ReadLine => 23,
            OpCode::WriteFile => 24,
            OpCode::PrintRaw => 25,
        }
    }

    /// Decodes a byte back to its opcode; `None` marks an illegal
    /// instruction.
    pub fn decode(b: u8) -> (r: Option<OpCode>)
        ensures
            r == decode_opcode_spec(b),
            r is Some ==> opcode_byte_spec(r->0) == b,
    {
        match b {
            0 => Some(OpCode::Halt),
            1 => Some(OpCode::LoadConst),
            2 => Some(OpCode::Add),
            3 => Some(OpCode::Sub),
            4 => Some(OpCode::Mul),
            5 => Some(OpCode::Div),
            6 => Some(OpCode::StoreGlobal),
            7 => Some(OpCode::LoadGlobal),
            8 => Some(OpCode::Print),
            9 => Some(OpCode::Eq),
            10 => Some(OpCode::JumpIfFalse),
            11 => Some(OpCode::Jump),
            12 => Some(OpCode::Gt),
            13 => Some(OpCode::Lt),
            14 => Some(OpCode::Pop),
            15 => Some(OpCode::Random),
            17 => Some(OpCode::Return),
            18 => Some(OpCode::Call),
            20 => Some(OpCode::ReadFile),
            21 => Some(OpCode::Sleep),
            22 => Some(OpCode::Clear),
            23 => Some(OpCode::ReadLine),
            24 => Some(OpCode::WriteFile),
            25 => Some(OpCode::PrintRaw),
            _ => None,
        }
    }
}

/// The mathematical shape of a chunk.
#[verifier::ext_equal]
pub struct ChunkView {
    pub code: Seq<u8>,
    pub constants: Seq<ValueView>,
    pub names: Seq<Seq<char>>,
}

/// The compiled artifact, immutable once the compiler hands it out.
#[derive(Debug)]
pub struct Chunk {
    pub code: Vec<u8>,
    pub constants: Vec<Value>,
    pub names: Vec<String>,
}

impl View for Chunk {
    type V = ChunkView;

    open spec fn view(&self) -> ChunkView {
        ChunkView {
            code: self.code@,
            constants: Seq::new(self.constants@.len(), |i: int| self.constants@[i]@),
            names: Seq::new(self.names@.len(), |i: int| self.names@[i]@),
        }
    }
}

/// Every constant a chunk holds is a well-formed value.
pub open spec fn chunk_wf(c: ChunkView) -> bool {
    forall|i: int| 0 <= i < c.constants.len() ==> value_wf(#[trigger] c.constants[i])
}

impl Chunk {
    /// An empty chunk, ready for the compiler to fill.
    pub fn new() -> (c: Chunk)
        ensures
            c@.code.len() == 0,
            c@.constants.len() == 0,
            c@.names.len() == 0,
            chunk_wf(c@),
    {
        Chunk { code: Vec::new(), constants: Vec::new(), names: Vec::new() }
    }
}

/// The eight-byte code a number is persisted as: finite values as their
/// step count in two's complement, the three non-finite values on the three
/// codes the symmetric finite range leaves free.
pub open spec fn num_code_spec(n: Num) -> int {
    match n {
        Num::Finite(m) => if m >= 0 {
            m as int
        } else {
            m + 0x1_0000_0000_0000_0000
        },
        Num::PosInf => 0x7fff_ffff_ffff_ffff,
        Num::NaN => 0x8000_0000_0000_0000,
        Num::NegInf => 0x8000_0000_0000_0001,
    }
}

/// The number an eight-byte code decodes back to.
pub open spec fn num_decode_spec(x: int) -> Num {
    if x == 0x7fff_ffff_ffff_ffff {
        Num::PosInf
    } else if x == 0x8000_0000_0000_0000 {
        Num::NaN
    } else if x == 0x8000_0000_0000_0001 {
        Num::NegInf
    } else if x < 0x8000_0000_0000_0000 {
        Num::Finite(x as i64)
    } else {
        Num::Finite((x - 0x1_0000_0000_0000_0000) as i64)
    }
}

/// Decoding inverts encoding on every well-formed number.
pub proof fn lemma_num_code_roundtrip(n: Num)
    requires
        num_wf(n),
    ensures
        num_decode_spec(num_code_spec(n)) == n,
        0 <= num_code_spec(n) < 0x1_0000_0000_0000_0000,
{
}

/// The little-endian bytes of `x`, `k` of them, least significant first.
pub open spec fn le_bytes(x: int, k: nat) -> Seq<u8>
    decreases k,
{
    if k == 0 {
        Seq::empty()
    } else {
        seq![(x % 256) as u8] + le_bytes(x / 256, (k - 1) as nat)
    }
}

/// The value a little-endian byte string denotes.
pub open spec fn le_val(s: Seq<u8>) -> int
    decreases s.len(),
{
    if s.len() == 0 {
        0
    } else {
        s[0] + 256 * le_val(s.skip(1))
    }
}

pub open spec fn pow256(k: nat) -> int
    decreases k,
{
    if k == 0 {
        1
    } else {
        256 * pow256((k - 1) as nat)
    }
}

pub proof fn lemma_le_bytes_len(x: int, k: nat)
    ensures
        le_bytes(x, k).len() == k,
    decreases k,
{
    if k > 0 {
        lemma_le_bytes_len(x / 256, (k - 1) as nat);
    }
}

pub proof fn lemma_le_val_bound(s: Seq<u8>)
    ensures
        0 <= le_val(s) < pow256(s.len()),
    decreases s.len(),
{
    if s.len() > 0 {
        lemma_le_val_bound(s.skip(1));
    }
}

/// Reading little-endian bytes back gives the value they were written
/// from, for any value that fits in `k` bytes.
pub proof fn lemma_le_roundtrip(x: int, k: nat)
    requires
        0 <= x < pow256(k),
    ensures
        le_val(le_bytes(x, k)) == x,
    decreases k,
{
    if k == 0 {
    } else {
        let s = le_bytes(x, k);
        let rest = le_bytes(x / 256, (k - 1) as nat);
        assert(s.skip(1) =~= rest);
        vstd::arithmetic::div_mod::lemma_fundamental_div_mod(x, 256);
        assert(x / 256 < pow256((k - 1) as nat)) by {
            vstd::arithmetic::div_mod::lemma_multiply_divide_lt(x, pow256((k - 1) as nat), 256);
        }
        assert(x / 256 >= 0) by {
            vstd::arithmetic::div_mod::lemma_div_pos_is_pos(x, 256);
        }
        lemma_le_roundtrip(x / 256, (k - 1) as nat);
    }
}

pub proof fn lemma_pow256_pos(k: nat)
    ensures
        pow256(k) >= 1,
    decreases k,
{
    if k > 0 {
        lemma_pow256_pos((k - 1) as nat);
    }
}

pub proof fn lemma_pow256_mono(a: nat, b: nat)
    requires
        a <= b,
    ensures
        pow256(a) <= pow256(b),
    decreases b,
{
    if a < b {
        lemma_pow256_mono(a, (b - 1) as nat);
        lemma_pow256_pos(a);
    }
}

/// Byte `i` of the `k`-byte little-endian form of a non-negative `x`.
proof fn lemma_le_bytes_index(x: int, k: nat, i: nat)
    requires
        0 <= x,
        i < k,
    ensures
        le_bytes(x, k)[i as int] == ((x / pow256(i)) % 256) as u8,
    decreases i,
{
    lemma_le_bytes_len(x, k);
    lemma_le_bytes_len(x / 256, (k - 1) as nat);
    if i == 0 {
        assert(x / 1 == x) by {
            vstd::arithmetic::div_mod::lemma_div_basics(x);
        }
    } else {
        assert(x / 256 >= 0) by {
            vstd::arithmetic::div_mod::lemma_div_pos_is_pos(x, 256);
        }
        lemma_le_bytes_index(x / 256, (k - 1) as nat, (i - 1) as nat);
        lemma_pow256_pos((i - 1) as nat);
        assert((x / 256) / pow256((i - 1) as nat) == x / (256 * pow256((i - 1) as nat))) by {
            vstd::arithmetic::div_mod::lemma_div_denominator(x, 256, pow256((i - 1) as nat));
        }
    }
}

/// Appends the `k` little-endian bytes of `x`.
fn push_le_bytes(out: &mut Vec<u8>, x: u64, k: usize)
    requires
        k <= 8,
    ensures
        final(out)@ == old(out)@ + le_bytes(x as int, k as nat),
{
    proof {
        lemma_le_bytes_len(x as int, k as nat);
    }
    let mut y: u64 = x;
    let mut i: usize = 0;
    while i < k
        invariant
            i <= k <= 8,
            y as int == x as int / pow256(i as nat),
            out@ == old(out)@ + le_bytes(x as int, k as nat).take(i as int),
            le_bytes(x as int, k as nat).len() == k,
        decreases k - i,
    {
        proof {
            lemma_le_bytes_index(x as int, k as nat, i as nat);
        }
        out.push((y % 256) as u8);
        proof {
            assert(out@ =~= old(out)@ + le_bytes(x as int, k as nat).take(i + 1));
            lemma_pow256_pos(i as nat);
            assert((x as int / pow256(i as nat)) / 256 == x as int / (pow256(i as nat) * 256)) by {
                vstd::arithmetic::div_mod::lemma_div_denominator(
                    x as int,
                    pow256(i as nat),
                    256,
                );
            }
            assert(pow256((i + 1) as nat) == 256 * pow256(i as nat));
        }
        y = y / 256;
        i = i + 1;
    }
    proof {
        assert(le_bytes(x as int, k as nat).take(k as int) =~= le_bytes(x as int, k as nat));
    }
}

/// Reads the `k`-byte little-endian value at `off`.
fn read_le_bytes(bytes: &Vec<u8>, off: usize, k: usize) -> (x: u64)
    requires
        k <= 8,
        off + k <= bytes@.len(),
    ensures
        x as int == le_val(bytes@.subrange(off as int, off + k)),
{
    let blen = bytes.len();
    let mut x: u64 = 0;
    let mut i: usize = k;
    proof {
        assert(bytes@.subrange(off + k, off + k).len() == 0);
    }
    while i > 0
        invariant
            i <= k <= 8,
            blen == bytes@.len(),
            off + k <= blen,
            x as int == le_val(bytes@.subrange(off + i, off + k)),
            (x as int) < pow256((k - i) as nat),
        decreases i,
    {
        i = i - 1;
        let b = bytes[off + i];
        proof {
            let s = bytes@.subrange(off + i, off + k);
            assert(s.skip(1) =~= bytes@.subrange(off + i + 1, off + k));
            assert(s[0] == bytes@[off + i]);
            lemma_pow256_mono((k - i - 1) as nat, 7);
            assert(pow256(7) == 0x100_0000_0000_0000) by {
                reveal_with_fuel(pow256, 9);
            }
        }
        x = x * 256 + (b as u64);
        proof {
            assert(pow256((k - i) as nat) == 256 * pow256((k - i - 1) as nat));
        }
    }
    proof {
        assert(bytes@.subrange(off as int, off + k) == bytes@.subrange(off + 0, off + k));
    }
    x
}

/// Encodes a number into its eight-byte code.
fn num_code(n: Num) -> (x: u64)
    requires
        num_wf(n),
    ensures
        x as int == num_code_spec(n),
{
    match n {
        Num::Finite(m) => {
            if m >= 0 {
                m as u64
            } else {
                ((m as i128) + 0x1_0000_0000_0000_0000i128) as u64
            }
        },
        Num::PosInf => 0x7fff_ffff_ffff_ffff,
        Num::NaN => 0x8000_0000_0000_0000,
        Num::NegInf => 0x8000_0000_0000_0001,
    }
}

/// Decodes an eight-byte code back into a number.
fn num_decode(x: u64) -> (n: Num)
    ensures
        n == num_decode_spec(x as int),
        num_wf(n),
{
    if x == 0x7fff_ffff_ffff_ffff {
        Num::PosInf
    } else if x == 0x8000_0000_0000_0000 {
        Num::NaN
    } else if x == 0x8000_0000_0000_0001 {
        Num::NegInf
    } else if x < 0x8000_0000_0000_0000 {
        Num::Finite(x as i64)
    } else {
        Num::Finite(((x as i128) - 0x1_0000_0000_0000_0000i128) as i64)
    }
}

/// The eight-byte codes of a constant pool, each constant persisted as its
/// numeric reading.
pub open spec fn const_codes(cs: Seq<ValueView>) -> Seq<u8>
    decreases cs.len(),
{
    if cs.len() == 0 {
        Seq::empty()
    } else {
        le_bytes(num_code_spec(as_number_spec(cs[0])), 8) + const_codes(cs.skip(1))
    }
}

/// The persisted binary form of a chunk: a four-byte little-endian
/// constant count, eight bytes for each constant's numeric reading, then
/// the raw instruction stream. Only the numeric reading of a constant
/// survives; the name pool does not.
pub open spec fn chunk_bytes_spec(c: ChunkView) -> Seq<u8> {
    le_bytes(c.constants.len() as int, 4) + const_codes(c.constants) + c.code
}

proof fn lemma_const_codes_snoc(s: Seq<ValueView>)
    requires
        s.len() > 0,
    ensures
        const_codes(s) == const_codes(s.drop_last()) + le_bytes(
            num_code_spec(as_number_spec(s.last())),
            8,
        ),
    decreases s.len(),
{
    if s.len() == 1 {
        assert(s.drop_last() =~= Seq::empty());
        assert(s[0] == s.last());
        assert(const_codes(s.skip(1)) == Seq::<u8>::empty());
        assert(const_codes(s) =~= const_codes(s.drop_last()) + le_bytes(
            num_code_spec(as_number_spec(s.last())),
            8,
        ));
    } else {
        lemma_const_codes_snoc(s.skip(1));
        assert(s.skip(1).drop_last() =~= s.drop_last().skip(1));
        assert(s.skip(1).last() == s.last());
        assert(s.drop_last()[0] == s[0]);
        assert(const_codes(s) =~= const_codes(s.drop_last()) + le_bytes(
            num_code_spec(as_number_spec(s.last())),
            8,
        ));
    }
}

proof fn lemma_const_codes_len(s: Seq<ValueView>)
    ensures
        const_codes(s).len() == 8 * s.len(),
    decreases s.len(),
{
    if s.len() > 0 {
        lemma_const_codes_len(s.skip(1));
        lemma_le_bytes_len(num_code_spec(as_number_spec(s[0])), 8);
    }
}

proof fn lemma_const_codes_group(cs: Seq<ValueView>, i: int)
    requires
        0 <= i < cs.len(),
    ensures
        const_codes(cs).len() == 8 * cs.len(),
        const_codes(cs).subrange(8 * i, 8 * i + 8) == le_bytes(
            num_code_spec(as_number_spec(cs[i])),
            8,
        ),
    decreases i,
{
    lemma_const_codes_len(cs);
    lemma_const_codes_len(cs.skip(1));
    lemma_le_bytes_len(num_code_spec(as_number_spec(cs[0])), 8);
    if i == 0 {
        assert(const_codes(cs).subrange(0, 8) =~= le_bytes(
            num_code_spec(as_number_spec(cs[0])),
            8,
        ));
    } else {
        lemma_const_codes_group(cs.skip(1), i - 1);
        assert(cs.skip(1)[i - 1] == cs[i]);
        assert(const_codes(cs).subrange(8 * i, 8 * i + 8) =~= const_codes(cs.skip(1)).subrange(
            8 * (i - 1),
            8 * (i - 1) + 8,
        ));
    }
}

/// Law: the persisted form of a chunk reads back exactly. The bytes
/// `chunk_bytes_spec(c)` pass the loader's length check, their instruction
/// stream is byte-for-byte the original's, and each persisted constant
/// decodes to the numeric reading of the constant it was written from —
/// so deserializing a serialized chunk yields an identical instruction
/// stream and a numerically-equal constant pool.
pub proof fn lemma_chunk_roundtrip(c: ChunkView)
    requires
        chunk_wf(c),
        c.constants.len() < 0x1_0000_0000,
    ensures
        chunk_bytes_spec(c).len() >= 4 + 8 * c.constants.len(),
        le_val(chunk_bytes_spec(c).subrange(0, 4)) == c.constants.len(),
        chunk_bytes_spec(c).skip(4 + 8 * c.constants.len() as int) == c.code,
        forall|i: int|
            0 <= i < c.constants.len() ==> num_decode_spec(
                le_val(chunk_bytes_spec(c).subrange(4 + 8 * i, 12 + 8 * i)),
            ) == as_number_spec(#[trigger] c.constants[i]),
{
    let b = chunk_bytes_spec(c);
    let cnt = c.constants.len() as int;
    lemma_le_bytes_len(cnt, 4);
    lemma_const_codes_len(c.constants);
    assert(pow256(4) == 0x1_0000_0000) by {
        reveal_with_fuel(pow256, 5);
    }
    assert(pow256(8) == 0x1_0000_0000_0000_0000) by {
        reveal_with_fuel(pow256, 9);
    }
    assert(b.subrange(0, 4) =~= le_bytes(cnt, 4));
    lemma_le_roundtrip(cnt, 4);
    assert(b.skip(4 + 8 * cnt) =~= c.code);
    assert forall|i: int| 0 <= i < cnt implies num_decode_spec(
        le_val(b.subrange(4 + 8 * i, 12 + 8 * i)),
    ) == as_number_spec(#[trigger] c.constants[i]) by {
        lemma_const_codes_group(c.constants, i);
        let n = as_number_spec(c.constants[i]);
        assert(num_wf(n));
        lemma_num_code_roundtrip(n);
        assert(b.subrange(4 + 8 * i, 12 + 8 * i) =~= const_codes(c.constants).subrange(
            8 * i,
            8 * i + 8,
        ));
        lemma_le_roundtrip(num_code_spec(n), 8);
    }
}

/// Writes a chunk into its persisted binary form.
pub fn serialize_chunk(c: &Chunk) -> (out: Vec<u8>)
    requires
        chunk_wf(c@),
        c@.constants.len() < 0x1_0000_0000,
    ensures
        out@ == chunk_bytes_spec(c@),
{
    let mut out: Vec<u8> = Vec::new();
    push_le_bytes(&mut out, c.constants.len() as u64, 4);
    let mut i: usize = 0;
    while i < c.constants.len()
        invariant
            i <= c@.constants.len(),
            chunk_wf(c@),
            out@ == le_bytes(c@.constants.len() as int, 4) + const_codes(c@.constants.take(
                i as int,
            )),
        decreases c@.constants.len() - i,
    {
        proof {
            assert(c@.constants[i as int] == c.constants@[i as int]@);
            assert(value_wf(c@.constants[i as int]));
        }
        let n = c.constants[i].as_number();
        let x = num_code(n);
        push_le_bytes(&mut out, x, 8);
        i = i + 1;
        proof {
            assert(c@.constants.take(i as int).drop_last() =~= c@.constants.take(i - 1));
            assert(c@.constants.take(i as int).last() == c@.constants[i - 1]);
            lemma_const_codes_snoc(c@.constants.take(i as int));
            assert(out@ =~= le_bytes(c@.constants.len() as int, 4) + const_codes(
                c@.constants.take(i as int),
            ));
        }
    }
    proof {
        assert(c@.constants.take(c@.constants.len() as int) =~= c@.constants);
    }
    let mut j: usize = 0;
    while j < c.code.len()
        invariant
            j <= c@.code.len(),
            out@ == le_bytes(c@.constants.len() as int, 4) + const_codes(c@.constants)
                + c@.code.take(j as int),
        decreases c@.code.len() - j,
    {
        out.push(c.code[j]);
        j = j + 1;
        proof {
            assert(out@ =~= le_bytes(c@.constants.len() as int, 4) + const_codes(c@.constants)
                + c@.code.take(j as int));
        }
    }
    proof {
        assert(c@.code.take(c@.code.len() as int) =~= c@.code);
    }
    out
}

/// Reads a chunk back out of its persisted binary form. A file too short
/// for its own declared constant count is rejected; opcode legality is the
/// machine's business at run time, not the loader's.
pub fn deserialize_chunk(bytes: &Vec<u8>) -> (r: Result<Chunk, VlError>)
    ensures
        match r {
            Ok(c) => {
                &&& bytes@.len() >= 4
                &&& bytes@.len() >= 4 + 8 * le_val(bytes@.subrange(0, 4))
                &&& c@.code == bytes@.skip(4 + 8 * le_val(bytes@.subrange(0, 4)))
                &&& c@.names.len() == 0
                &&& c@.constants.len() == le_val(bytes@.subrange(0, 4))
                &&& forall|i: int|
                    0 <= i < c@.constants.len() ==> #[trigger] c@.constants[i]
                        == ValueView::Number(
                        num_decode_spec(le_val(bytes@.subrange(4 + 8 * i, 12 + 8 * i))),
                    )
                &&& chunk_wf(c@)
            },
            Err(_) => bytes@.len() < 4 || bytes@.len() < 4 + 8 * le_val(bytes@.subrange(0, 4)),
        },
{
    let n = bytes.len();
    if n < 4 {
        return Err(VlError::new(
            "File bytecode bi cat cut",
            "Truncated bytecode file",
            0,
            0,
        ));
    }
    let cnt64 = read_le_bytes(bytes, 0, 4);
    proof {
        lemma_le_val_bound(bytes@.subrange(0, 4));
        assert(pow256(4) == 0x1_0000_0000) by {
            reveal_with_fuel(pow256, 5);
        }
    }
    let cnt = cnt64 as usize;
    if (n - 4) / 8 < cnt {
        proof {
            vstd::arithmetic::div_mod::lemma_fundamental_div_mod(n - 4, 8);
        }
        return Err(VlError::new(
            "File bytecode bi cat cut",
            "Truncated bytecode file",
            0,
            0,
        ));
    }
    proof {
        vstd::arithmetic::div_mod::lemma_fundamental_div_mod(n - 4, 8);
    }
    let mut constants: Vec<Value> = Vec::new();
    let mut i: usize = 0;
    while i < cnt
        invariant
            i <= cnt,
            n == bytes@.len(),
            4 + 8 * cnt <= n,
            cnt == le_val(bytes@.subrange(0, 4)),
            constants@.len() == i,
            forall|t: int|
                0 <= t < i ==> #[trigger] constants@[t]@ == ValueView::Number(
                    num_decode_spec(le_val(bytes@.subrange(4 + 8 * t, 12 + 8 * t))),
                ) && value_wf(constants@[t]@),
        decreases cnt - i,
    {
        let x = read_le_bytes(bytes, 4 + 8 * i, 8);
        let num = num_decode(x);
        constants.push(Value::Number(num));
        i = i + 1;
    }
    let start = 4 + 8 * cnt;
    let mut code: Vec<u8> = Vec::new();
    let mut j: usize = start;
    while j < n
        invariant
            start <= j <= n,
            n == bytes@.len(),
            code@ == bytes@.subrange(start as int, j as int),
        decreases n - j,
    {
        code.push(bytes[j]);
        j = j + 1;
        proof {
            assert(code@ =~= bytes@.subrange(start as int, j as int));
        }
    }
    let c = Chunk { code, constants, names: Vec::new() };
    proof {
        assert(c@.code =~= bytes@.skip(4 + 8 * le_val(bytes@.subrange(0, 4))));
    }
    Ok(c)
}

} // verus!
