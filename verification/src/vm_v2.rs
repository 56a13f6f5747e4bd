use vstd::prelude::*;
use crate::le_bytes::{byte_at, le_read, le_byte, le_store, truncate, write_le, lemma_or2, lemma_or4, lemma_or8, lemma_le_roundtrip, lemma_le_read_bound, pow256};

verus! {


/// Description bits: first operand in memory.
pub const MM1: u8 = 0b00;
/// Description bits: first operand direct.
pub const MD1: u8 = 0b01;
/// Description bits: first operand in a register.
pub const MR1: u8 = 0b10;
/// Description bits: second operand in memory.
pub const MM2: u8 = 0b0000;
/// Description bits: second operand direct.
pub const MD2: u8 = 0b0100;
/// Description bits: second operand in a register.
pub const MR2: u8 = 0b1000;
/// Description bits: first operand a byte.
pub const SB1: u8 = 0b000000;
/// Description bits: first operand a word.
pub const SW1: u8 = 0b010000;
/// Description bits: first operand an int.
pub const SI1: u8 = 0b100000;
/// Description bits: first operand a long.
pub const SL1: u8 = 0b110000;
/// Description bits: second operand a byte.
pub const SB2: u8 = 0b00000000;
/// Description bits: second operand a word.
pub const SW2: u8 = 0b01000000;
/// Description bits: second operand an int.
pub const SI2: u8 = 0b10000000;
/// Description bits: second operand a long.
pub const SL2: u8 = 0b11000000;

/// Register index of the program counter rC.
pub const REG_RC: u8 = 4;
/// Register index of the error register rE.
pub const REG_RE: u8 = 6;
/// Register index of the stack pointer rS.
pub const REG_RS: u8 = 5;

/// Width of an operand or memory access.
#[derive(Debug, Clone, Copy, PartialEq, Eq, Structural)]
pub enum Size {
    Byte,
    Word,
    Int,
    Long,
}

impl Size {
    /// Number of bytes covered by this width.
    pub open spec fn spec_size(&self) -> nat {
        match self {
            Size::Byte => 1,
            Size::Word => 2,
            Size::Int => 4,
            Size::Long => 8,
        }
    }

    pub fn get_size(&self) -> (n: u8)
        ensures
            n == self.spec_size(),
    {
        match self {
            Size::Byte => 1,
            Size::Word => 2,
            Size::Int => 4,
            Size::Long => 8,
        }
    }
}

/// Where an operand value comes from or goes to.
#[derive(Debug, Clone, Copy, PartialEq, Eq, Structural)]
pub enum AddressMode {
    Memory,
    Direct,
    Register,
    Bus,
}

/// A read of `size` bytes at `slot` completes: the offsets it forms do not overflow,
/// and the wider reads find their first byte inside the memory.
pub open spec fn read_memory_ok(mem: Seq<u8>, slot: usize, size: Size) -> bool {
    &&& slot + size.spec_size() - 1 <= usize::MAX
    &&& (size == Size::Int || size == Size::Long) ==> slot < mem.len()
}

/// Memory after a write of `value` with width `size` at `slot`: the width's little-endian
/// bytes of the value are stored there; the memory is unchanged when the written range does
/// not fit inside it.
pub open spec fn write_memory_spec(mem: Seq<u8>, slot: int, value: u64, size: Size) -> Seq<u8> {
    let n = size.spec_size();
    if slot + n <= mem.len() {
        le_store(mem, slot, value, n)
    } else {
        mem
    }
}

/// Mathematical picture of a [`VmState`].
pub struct VmModel {
    pub memory: Seq<u8>,
    pub stack_location: u64,
    pub program_location: u64,
    pub registers: Seq<u64>,
    pub op_limit: u64,
    pub ops_ran: u64,
    pub running: bool,
}

/// A register-based virtual machine: general memory, then the stack, then the program,
/// all in one byte array, plus nine 64-bit registers.
#[derive(Debug, PartialEq, Eq)]
pub struct VmState {
    memory: Vec<u8>,
    pub stack_location: u64,
    pub program_location: u64,
    registers: [u64; 9],
    pub op_limit: u64,
    ops_ran: u64,
    pub running: bool,
}

impl Default for VmState {
    /// The machine with 512 bytes of general memory, 128 of stack, 128 of program
    /// and an operation limit of 1000.
    fn default() -> (s: Self)
        ensures
            s@ == fresh_model(512, 128, 128, 1000),
    {
        VmState::new(512, 128, 128, 1000)
    }
}

impl View for VmState {
    type V = VmModel;

    closed spec fn view(&self) -> VmModel {
        VmModel {
            memory: self.memory@,
            stack_location: self.stack_location,
            program_location: self.program_location,
            registers: self.registers@,
            op_limit: self.op_limit,
            ops_ran: self.ops_ran,
            running: self.running,
        }
    }
}

/// Value of register `r`, or 0 for an index past the last register.
pub open spec fn reg(m: VmModel, r: int) -> u64 {
    if 0 <= r < m.registers.len() {
        m.registers[r]
    } else {
        0
    }
}

/// The value `read_memory` gives.
pub open spec fn read_memory_spec(mem: Seq<u8>, slot: int, size: Size) -> u64 {
    le_read(mem, slot, size.spec_size()) as u64
}

/// A fresh machine: `max_memory + max_stack + max_program` zero bytes, the stack starting
/// right after general memory and the program right after the stack.
pub open spec fn fresh_model(max_memory: u64, max_stack: u64, max_program: u64, op_limit: u64) -> VmModel {
    VmModel {
        memory: Seq::new((max_memory + max_stack + max_program) as nat, |i: int| 0u8),
        stack_location: max_memory,
        program_location: (max_stack + max_memory) as u64,
        registers: seq![0, 0, 0, 0, (max_stack + max_memory) as u64, max_memory, 0, 0, 0],
        op_limit,
        ops_ran: 0,
        running: false,
    }
}

/// `m` with its memory replaced by `mem`.
pub open spec fn with_memory(m: VmModel, mem: Seq<u8>) -> VmModel {
    VmModel { memory: mem, ..m }
}

/// `m` with register `r` set to `v`.
pub open spec fn with_register(m: VmModel, r: int, v: u64) -> VmModel {
    VmModel { registers: m.registers.update(r, v), ..m }
}

/// A write of `size` bytes at `slot` completes: its last offset does not overflow.
pub open spec fn write_memory_ok(slot: usize, size: Size) -> bool {
    slot + size.spec_size() - 1 <= usize::MAX
}

/// Stack pointer rS.
pub open spec fn stack_pointer(m: VmModel) -> u64 {
    reg(m, REG_RS as int)
}

/// The stack holds fewer than `size` bytes: the stack pointer is below the width, or the
/// width below it starts before the stack.
pub open spec fn stack_underflows(m: VmModel, size: Size) -> bool {
    let x = stack_pointer(m);
    x < size.spec_size() || x - size.spec_size() < m.stack_location
}

/// `peak_stack` completes: the read it makes completes.
pub open spec fn peak_stack_ok(m: VmModel, size: Size) -> bool {
    let x = stack_pointer(m);
    !stack_underflows(m, size) ==> read_memory_ok(
        m.memory,
        (x - size.spec_size()) as usize,
        size,
    )
}

/// The value below the stack pointer, if it lies at or above the stack's start.
pub open spec fn peak_stack_spec(m: VmModel, size: Size) -> Option<u64> {
    let x = stack_pointer(m);
    let top = (x - size.spec_size()) as u64;
    if stack_underflows(m, size) {
        None
    } else {
        Some(read_memory_spec(m.memory, top as usize as int, size))
    }
}

/// `pop_stack` completes: as for `peak_stack`, and the clearing write completes.
pub open spec fn pop_stack_ok(m: VmModel, size: Size) -> bool {
    &&& peak_stack_ok(m, size)
    &&& !stack_underflows(m, size) ==> write_memory_ok(
        (stack_pointer(m) - size.spec_size()) as u64 as usize,
        size,
    )
}

/// State and result of `pop_stack`: on success rS drops by the width, the value below the
/// old rS is returned and its bytes are cleared; a pop below the stack's start is refused.
pub open spec fn pop_stack_spec(m: VmModel, size: Size) -> (VmModel, Result<u64, &'static str>) {
    let x = stack_pointer(m);
    let top = (x - size.spec_size()) as u64;
    if stack_underflows(m, size) {
        (m, Err("StackUnderflow"))
    } else {
        let m1 = with_register(m, REG_RS as int, top);
        (
            with_memory(m1, write_memory_spec(m1.memory, top as usize as int, 0, size)),
            Ok(read_memory_spec(m.memory, top as usize as int, size)),
        )
    }
}

/// `push_stack` completes: the new stack pointer does not overflow, and the write completes.
pub open spec fn push_stack_ok(m: VmModel, size: Size) -> bool {
    let x = stack_pointer(m);
    &&& x + size.spec_size() <= u64::MAX
    &&& x + size.spec_size() <= m.program_location ==> write_memory_ok(x as usize, size)
}

/// State and result of `push_stack`: on success rS grows by the width and the value is
/// written at the old rS; a push past the program's start is refused.
pub open spec fn push_stack_spec(m: VmModel, value: u64, size: Size) -> (VmModel, Result<(), &'static str>) {
    let x = stack_pointer(m);
    if x + size.spec_size() > m.program_location {
        (m, Err("StackOverflow"))
    } else {
        let m1 = with_register(m, REG_RS as int, (x + size.spec_size()) as u64);
        (with_memory(m1, write_memory_spec(m1.memory, x as usize as int, value, size)), Ok(()))
    }
}

/// The memory after `program` is copied at the program's start, or `None` when it does not fit.
pub open spec fn write_program_spec(m: VmModel, program: Seq<u8>) -> Option<Seq<u8>> {
    let start = m.program_location as int;
    if program.len() > m.memory.len() - start {
        None
    } else {
        Some(
            Seq::new(
                m.memory.len(),
                |i: int|
                    if start <= i < start + program.len() {
                        program[i - start]
                    } else {
                        m.memory[i]
                    },
            ),
        )
    }
}

/// The value `read_memory_addressed` gives.
pub open spec fn read_addressed_spec(m: VmModel, slot: int, size: Size, mode: AddressMode) -> u64 {
    match mode {
        AddressMode::Memory => read_memory_spec(m.memory, slot, size),
        AddressMode::Bus => 1,
        _ => 0,
    }
}

/// How far an operand of this mode and width advances the program counter.
pub open spec fn operand_advance(size: Size, mode: AddressMode) -> nat {
    match mode {
        AddressMode::Direct => size.spec_size(),
        _ => 1,
    }
}

/// The raw value of an operand of this mode and width read at `slot`.
pub open spec fn operand_raw(m: VmModel, slot: int, size: Size, mode: AddressMode) -> u64 {
    match mode {
        AddressMode::Register => read_memory_spec(m.memory, slot, Size::Byte),
        AddressMode::Bus => 1,
        _ => read_memory_spec(m.memory, slot, size),
    }
}

/// Reading an operand at `slot` completes.
pub open spec fn operand_raw_ok(m: VmModel, slot: usize, size: Size, mode: AddressMode) -> bool {
    match mode {
        AddressMode::Register => read_memory_ok(m.memory, slot, Size::Byte),
        AddressMode::Bus => true,
        _ => read_memory_ok(m.memory, slot, size),
    }
}

/// The floating-point instructions (opcodes 13 to 16), which act on the IEEE-754 doubles
/// whose bit patterns the operands hold and store the result's bit pattern in r2.
#[derive(Debug, Clone, Copy, PartialEq, Eq, Structural)]
pub enum FloatOp {
    Add,
    Sub,
    Mul,
    Div,
}

/// What one instruction step leaves for the caller.
#[derive(Debug, Clone, Copy, PartialEq, Eq)]
pub enum Step {
    /// The machine goes on with the next instruction.
    Continue,
    /// The program has stopped, with this result.
    Finished(Result<(), &'static str>),
    /// A floating-point instruction on the two operand values waits for its result.
    Float(FloatOp, u64, u64),
}

/// What an instruction's operation leaves.
pub enum OpOut {
    Done(VmModel, Result<(), &'static str>),
    Float(FloatOp),
}

/// Address mode named by two description bits.
pub open spec fn decode_mode(b: u8) -> AddressMode {
    if b == 0 {
        AddressMode::Memory
    } else if b == 1 {
        AddressMode::Direct
    } else if b == 2 {
        AddressMode::Register
    } else {
        AddressMode::Bus
    }
}

/// Width named by two description bits.
pub open spec fn decode_size(b: u8) -> Size {
    if b == 0 {
        Size::Byte
    } else if b == 1 {
        Size::Word
    } else if b == 2 {
        Size::Int
    } else {
        Size::Long
    }
}

/// Reading an operand at `count`: its raw value and the advanced counter, or `None` where
/// the read cannot complete.
pub open spec fn operand_read(m: VmModel, count: u64, size: Size, mode: AddressMode) -> Option<(u64, u64)> {
    if operand_raw_ok(m, count as usize, size, mode) && count + operand_advance(size, mode) <= u64::MAX {
        Some((operand_raw(m, count as usize as int, size, mode), (count + operand_advance(size, mode)) as u64))
    } else {
        None
    }
}

/// The value an operand stands for: itself when direct, the memory at it, or the register it
/// names. `Some(None)` for a bus operand, `None` where the memory read cannot complete.
pub open spec fn operand_value(m: VmModel, raw: u64, size: Size, mode: AddressMode) -> Option<Option<u64>> {
    match mode {
        AddressMode::Direct => Some(Some(raw)),
        AddressMode::Memory => if read_memory_ok(m.memory, raw as usize, size) {
            Some(Some(read_memory_spec(m.memory, raw as usize as int, size)))
        } else {
            None
        },
        AddressMode::Register => Some(Some(reg(m, raw as usize as int))),
        AddressMode::Bus => Some(None),
    }
}

/// `m` with the program counter set to `v`.
pub open spec fn with_pc(m: VmModel, v: u64) -> VmModel {
    with_register(m, REG_RC as int, v)
}

/// Storing `v` into the place an operand names (memory or register); `None` where the
/// store cannot complete, and an error for any other mode.
pub open spec fn store_spec(m: VmModel, place: u64, v: u64, size: Size, mode: AddressMode) -> Option<(VmModel, Result<(), &'static str>)> {
    match mode {
        AddressMode::Memory => if write_memory_ok(place as usize, size) {
            Some((with_memory(m, write_memory_spec(m.memory, place as usize as int, v, size)), Ok(())))
        } else {
            None
        },
        AddressMode::Register => if (place as usize) < 9 {
            Some((with_register(m, place as usize as int, v), Ok(())))
        } else {
            None
        },
        _ => Some((m, Err("InvalidTarget"))),
    }
}

/// `m` with r2 set to `v` as an arithmetic instruction stores it.
pub open spec fn alu_result(m: VmModel, v: u64) -> Option<OpOut> {
    Some(OpOut::Done(with_register(m, 2, v), Ok(())))
}

/// `m` after a jump to r3 when `cond` holds.
pub open spec fn jump_if(m: VmModel, cond: bool) -> Option<OpOut> {
    if cond {
        Some(OpOut::Done(with_pc(m, reg(m, 3)), Ok(())))
    } else {
        Some(OpOut::Done(m, Ok(())))
    }
}

/// The effect of one operation on the machine, given the raw operands `x1v`/`x2v`, the values
/// they stand for `x1`/`x2`, and their modes and widths. `None` where the operation cannot
/// complete (an overflowing or dividing-by-zero arithmetic instruction, a register index
/// past r8, an offset that overflows).
pub open spec fn op_spec(
    m: VmModel,
    op: u8,
    x1v: u64,
    x2v: u64,
    x1: u64,
    x2: u64,
    x1m: AddressMode,
    x2m: AddressMode,
    x1s: Size,
) -> Option<OpOut> {
    if op == 0 {
        Some(OpOut::Done(VmModel { running: false, ..m }, Ok(())))
    } else if op == 1 {
        match store_spec(m, x2v, x1, x1s, x2m) {
            Some((m1, r)) => Some(OpOut::Done(m1, r)),
            None => None,
        }
    } else if op == 2 {
        if x1 + x2 <= u64::MAX { alu_result(m, (x1 + x2) as u64) } else { None }
    } else if op == 3 {
        if x1 >= x2 { alu_result(m, (x1 - x2) as u64) } else { None }
    } else if op == 4 {
        if x1 * x2 <= u64::MAX { alu_result(m, (x1 * x2) as u64) } else { None }
    } else if op == 5 {
        if x2 != 0 { alu_result(m, x1 / x2) } else { None }
    } else if op == 6 {
        jump_if(m, true)
    } else if op == 7 {
        jump_if(m, x1 > x2)
    } else if op == 8 {
        jump_if(m, x1 < x2)
    } else if op == 9 {
        jump_if(m, x1 == x2)
    } else if op == 10 {
        jump_if(m, x1 >= x2)
    } else if op == 11 {
        jump_if(m, x1 <= x2)
    } else if op == 12 {
        jump_if(m, x1 != x2)
    } else if op == 13 {
        Some(OpOut::Float(FloatOp::Add))
    } else if op == 14 {
        Some(OpOut::Float(FloatOp::Sub))
    } else if op == 15 {
        Some(OpOut::Float(FloatOp::Mul))
    } else if op == 16 {
        Some(OpOut::Float(FloatOp::Div))
    } else if op == 17 {
        if push_stack_ok(m, x1s) {
            let (m1, r) = push_stack_spec(m, x1, x1s);
            Some(OpOut::Done(m1, r))
        } else {
            None
        }
    } else if op == 18 {
        if pop_stack_ok(m, x1s) {
            let (m1, r) = pop_stack_spec(m, x1s);
            match r {
                Err(e) => Some(OpOut::Done(m1, Err(e))),
                Ok(x) => match store_spec(m1, x1v, x, x1s, x1m) {
                    Some((m2, r2)) => Some(OpOut::Done(m2, r2)),
                    None => None,
                },
            }
        } else {
            None
        }
    } else if op == 19 {
        let m1 = with_pc(m, x1);
        if push_stack_ok(m1, Size::Long) {
            let (m2, r) = push_stack_spec(m1, reg(m, REG_RC as int), Size::Long);
            Some(OpOut::Done(m2, r))
        } else {
            None
        }
    } else if op == 20 {
        if pop_stack_ok(m, Size::Long) {
            let (m1, r) = pop_stack_spec(m, Size::Long);
            match r {
                Ok(x) => Some(OpOut::Done(with_pc(m1, x), Ok(()))),
                Err(e) => Some(OpOut::Done(m1, Err(e))),
            }
        } else {
            None
        }
    } else {
        Some(OpOut::Done(m, Err("InvalidOpCode")))
    }
}

/// The checks after an operation has completed: one more operation counted, then a stop when
/// rE holds 1 (success), when the machine was halted (failure), or at the operation limit.
/// `None` where the operation counter would overflow.
pub open spec fn post_op_spec(m: VmModel) -> Option<(VmModel, Step)> {
    if m.ops_ran + 1 > u64::MAX {
        None
    } else {
        let m1 = VmModel { ops_ran: (m.ops_ran + 1) as u64, ..m };
        if reg(m1, REG_RE as int) == 1 {
            Some((VmModel { running: false, ..m1 }, Step::Finished(Ok(()))))
        } else if !m1.running {
            Some((m1, Step::Finished(Err("VMFailed"))))
        } else if m1.ops_ran >= m1.op_limit {
            Some((m1, Step::Finished(Err("HitOpLimit"))))
        } else {
            Some((m1, Step::Continue))
        }
    }
}

/// A decoded instruction: opcode, raw operands, the values they stand for, their modes and
/// widths, and the address of the next instruction.
#[derive(Debug, Clone, Copy, PartialEq, Eq)]
pub struct Instr {
    pub op: u8,
    pub x1_value: u64,
    pub x2_value: u64,
    pub x1: u64,
    pub x2: u64,
    pub x1_mode: AddressMode,
    pub x2_mode: AddressMode,
    pub x1_size: Size,
    pub x2_size: Size,
    pub next: u64,
}

/// The outcome of decoding the instruction at rC.
#[derive(Debug, Clone, Copy, PartialEq, Eq)]
pub enum Decoded {
    /// The opcode or description byte lies past the memory.
    RanOut,
    /// An operand uses the bus mode, which has no value.
    BusOperand,
    /// Decoding cannot complete (an overflowing offset, or a wide read outside the
    /// memory).
    Trap,
    Ready(Instr),
}

/// Decoding the instruction at rC: opcode byte, description byte (bits 0-1 mode of x1,
/// 2-3 mode of x2, 4-5 width of x1, 6-7 width of x2), then the two operands.
pub open spec fn decode_spec(m: VmModel) -> Decoded {
    let pc = reg(m, REG_RC as int);
    if !((pc as usize) < m.memory.len()) {
        Decoded::RanOut
    } else {
        let op = m.memory[pc as usize as int];
        let c1 = (pc + 1) as u64;
        if !((c1 as usize) < m.memory.len()) {
            Decoded::RanOut
        } else {
            let desc = m.memory[c1 as usize as int];
            let c2 = (c1 + 1) as u64;
            let x1m = decode_mode(desc & 3);
            let x2m = decode_mode((desc & 12) >> 2u8);
            let x1s = decode_size((desc & 48) >> 4u8);
            let x2s = decode_size((desc & 192) >> 6u8);
            match operand_read(m, c2, x1s, x1m) {
                None => Decoded::Trap,
                Some((x1v, c3)) => match operand_read(m, c3, x2s, x2m) {
                    None => Decoded::Trap,
                    Some((x2v, c4)) => match operand_value(m, x1v, x1s, x1m) {
                        None => Decoded::Trap,
                        Some(None) => Decoded::BusOperand,
                        Some(Some(x1)) => match operand_value(m, x2v, x2s, x2m) {
                            None => Decoded::Trap,
                            Some(None) => Decoded::BusOperand,
                            Some(Some(x2)) => Decoded::Ready(
                                Instr {
                                    op,
                                    x1_value: x1v,
                                    x2_value: x2v,
                                    x1,
                                    x2,
                                    x1_mode: x1m,
                                    x2_mode: x2m,
                                    x1_size: x1s,
                                    x2_size: x2s,
                                    next: c4,
                                },
                            ),
                        },
                    },
                },
            }
        }
    }
}

/// The operation of a decoded instruction on `m` (where rC already points past it).
pub open spec fn instr_op_spec(m: VmModel, i: Instr) -> Option<OpOut> {
    op_spec(m, i.op, i.x1_value, i.x2_value, i.x1, i.x2, i.x1_mode, i.x2_mode, i.x1_size)
}

/// One instruction: decode it, move rC past it, perform the operation and run the checks
/// after it. A missing opcode or description byte stores 2 in rE and ends the program.
/// `None` where the step cannot complete.
pub open spec fn step_spec(m: VmModel) -> Option<(VmModel, Step)> {
    match decode_spec(m) {
        Decoded::RanOut => Some((with_register(m, REG_RE as int, 2), Step::Finished(Err("EndedWrongly")))),
        Decoded::BusOperand => Some((m, Step::Finished(Err("DescriptionError")))),
        Decoded::Trap => None,
        Decoded::Ready(i) => {
            let m1 = with_pc(m, i.next);
            match instr_op_spec(m1, i) {
                None => None,
                Some(OpOut::Float(f)) => Some((m1, Step::Float(f, i.x1, i.x2))),
                Some(OpOut::Done(m2, Err(e))) => Some((m2, Step::Finished(Err(e)))),
                Some(OpOut::Done(m2, Ok(()))) => post_op_spec(m2),
            }
        },
    }
}

proof fn lemma_index_below(x: u64, len: usize)
    ensures
        (x as usize) < len ==> x < u64::MAX,
{
    assert((x as usize) < len ==> x < 0xffff_ffff_ffff_ffffu64) by (bit_vector);
}

fn mode_from(b: u8) -> (m: AddressMode)
    ensures
        m == decode_mode(b),
{
    match b {
        0 => AddressMode::Memory,
        1 => AddressMode::Direct,
        2 => AddressMode::Register,
        _ => AddressMode::Bus,
    }
}

fn size_from(b: u8) -> (s: Size)
    ensures
        s == decode_size(b),
{
    match b {
        0 => Size::Byte,
        1 => Size::Word,
        2 => Size::Int,
        _ => Size::Long,
    }
}

fn write_ok(slot: usize, size: &Size) -> (b: bool)
    ensures
        b == write_memory_ok(slot, *size),
{
    slot <= usize::MAX - (size.get_size() as usize - 1)
}

/// Where a run of the machine stops.
#[derive(Debug, Clone, Copy, PartialEq, Eq)]
pub enum RunEvent {
    /// The program has stopped, with this result.
    Finished(Result<(), &'static str>),
    /// A floating-point instruction on the two operand values waits for its result.
    Float(FloatOp, u64, u64),
    /// The next instruction cannot complete; the machine is left as it was before it.
    WouldTrap,
}

/// Running the machine from `m`: while it is running, execute instructions until one
/// finishes the program, asks for a floating-point result, or would not complete.
/// A machine that is not running stops with "DescriptionError".
pub open spec fn run_spec(m: VmModel) -> (VmModel, RunEvent)
    decreases m.op_limit - m.ops_ran,
{
    if !m.running {
        (m, RunEvent::Finished(Err("DescriptionError")))
    } else {
        match step_spec(m) {
            None => (m, RunEvent::WouldTrap),
            Some((m1, Step::Finished(r))) => (m1, RunEvent::Finished(r)),
            Some((m1, Step::Float(f, a, b))) => (m1, RunEvent::Float(f, a, b)),
            Some((m1, Step::Continue)) => if m1.op_limit == m.op_limit && m.ops_ran < m1.ops_ran
                < m1.op_limit {
                run_spec(m1)
            } else {
                (m1, RunEvent::WouldTrap)
            },
        }
    }
}

/// A step that goes on counts one more operation, stays below the limit and keeps the limit.
pub proof fn lemma_continue_progress(m: VmModel)
    requires
        step_spec(m) matches Some((_, Step::Continue)),
    ensures
        ({
            let m1 = step_spec(m).unwrap().0;
            m1.op_limit == m.op_limit && m1.ops_ran == m.ops_ran + 1 && m1.ops_ran < m1.op_limit
        }),
{
}

fn zeroed(n: u64) -> (v: Vec<u8>)
    requires
        n <= usize::MAX,
    ensures
        v@ == Seq::new(n as nat, |i: int| 0u8),
{
    let mut vec: Vec<u8> = Vec::new();
    let mut i: u64 = 0;
    while i < n
        invariant
            i <= n,
            vec@ == Seq::new(i as nat, |j: int| 0u8),
        decreases n - i,
    {
        vec.push(0);
        i += 1;
    }
    vec
}

impl VmState {
    pub fn new(max_memory: u64, max_stack: u64, max_program: u64, op_limit: u64) -> (s: Self)
        requires
            max_memory + max_stack + max_program <= isize::MAX,
        ensures
            s@ == fresh_model(max_memory, max_stack, max_program, op_limit),
    {
        let s = VmState {
            memory: zeroed(max_memory + max_program + max_stack),
            stack_location: max_memory,
            program_location: max_stack + max_memory,
            registers: [0, 0, 0, 0, max_stack + max_memory, max_memory, 0, 0, 0],
            op_limit,
            ops_ran: 0,
            running: false,
        };
        assert(s@.registers =~= fresh_model(max_memory, max_stack, max_program, op_limit).registers);
        s
    }

    fn read_mem_safe(&self, slot: usize) -> (b: u8)
        ensures
            b == byte_at(self@.memory, slot as int),
    {
        if slot < self.memory.len() {
            self.memory[slot]
        } else {
            0
        }
    }

    pub fn read_memory(&self, slot: usize, size: &Size) -> (ret: u64)
        requires
            read_memory_ok(self@.memory, slot, *size),
        ensures
            ret == read_memory_spec(self@.memory, slot as int, *size),
    {
        let ret: u64;
        match size {
            Size::Byte => {
                ret = self.read_mem_safe(slot) as u64;
                assert(ret == read_memory_spec(self@.memory, slot as int, *size)) by {
                    reveal_with_fuel(le_read, 2);
                }
            },
            Size::Word => {
                let b0 = self.read_mem_safe(slot);
                let b1 = self.read_mem_safe(slot + 1);
                ret = (b0 as u64) | ((b1 as u64) << 8u64);
                proof {
                    lemma_or2(b0, b1);
                    reveal_with_fuel(le_read, 3);
                }
            },
            Size::Int => {
                let b0 = self.memory[slot];
                let b1 = self.read_mem_safe(slot + 1);
                let b2 = self.read_mem_safe(slot + 2);
                let b3 = self.read_mem_safe(slot + 3);
                ret = (b0 as u64) | ((b1 as u64) << 8u64) | ((b2 as u64) << 16u64) | ((b3 as u64)
                    << 24u64);
                proof {
                    lemma_or4(b0, b1, b2, b3);
                    reveal_with_fuel(le_read, 5);
                }
            },
            Size::Long => {
                let b0 = self.memory[slot];
                let b1 = self.read_mem_safe(slot + 1);
                let b2 = self.read_mem_safe(slot + 2);
                let b3 = self.read_mem_safe(slot + 3);
                let b4 = self.read_mem_safe(slot + 4);
                let b5 = self.read_mem_safe(slot + 5);
                let b6 = self.read_mem_safe(slot + 6);
                let b7 = self.read_mem_safe(slot + 7);
                ret = (b0 as u64) | ((b1 as u64) << 8u64) | ((b2 as u64) << 16u64) | ((b3 as u64)
                    << 24u64) | ((b4 as u64) << 32u64) | ((b5 as u64) << 40u64) | ((b6 as u64)
                    << 48u64) | ((b7 as u64) << 56u64);
                proof {
                    lemma_or8(b0, b1, b2, b3, b4, b5, b6, b7);
                    reveal_with_fuel(le_read, 9);
                }
            },
        }
        ret
    }

    fn set_byte(&mut self, slot: usize, b: u8)
        requires
            slot < old(self)@.memory.len(),
        ensures
            final(self)@ == with_memory(old(self)@, old(self)@.memory.update(slot as int, b)),
    {
        self.memory.set(slot, b);
    }

    pub fn write_memory(&mut self, slot: usize, value: u64, size: &Size)
        requires
            write_memory_ok(slot, *size),
        ensures
            final(self)@ == with_memory(
                old(self)@,
                write_memory_spec(old(self)@.memory, slot as int, value, *size),
            ),
    {
        let len = self.memory.len();
        let n = size.get_size() as usize;
        if len <= slot + (n - 1) {
            return ;
        }
        write_le(&mut self.memory, slot, value, n);
    }

    pub fn read_register(&self, register: usize) -> (v: u64)
        ensures
            self@.registers.len() == 9,
            v == reg(self@, register as int),
            register >= 9 ==> v == 0,
    {
        if register < 9 {
            self.registers[register]
        } else {
            0
        }
    }

    pub fn write_register(&mut self, register: usize, value: u64)
        requires
            register < 9,
        ensures
            old(self)@.registers.len() == 9,
            final(self)@.registers.len() == 9,
            final(self)@ == with_register(old(self)@, register as int, value),
    {
        self.registers[register] = value;
    }

    pub fn peak_stack(&self, size: &Size) -> (r: Option<u64>)
        requires
            peak_stack_ok(self@, *size),
        ensures
            r == peak_stack_spec(self@, *size),
    {
        let mut x = self.read_register(REG_RS as usize);
        if x < size.get_size() as u64 || (x - size.get_size() as u64) < self.stack_location {
            Option::None
        } else {
            x = x - size.get_size() as u64;
            Option::Some(self.read_memory(x as usize, size))
        }
    }

    pub fn pop_stack(&mut self, size: &Size) -> (r: Result<u64, &'static str>)
        requires
            pop_stack_ok(old(self)@, *size),
        ensures
            (final(self)@, r) == pop_stack_spec(old(self)@, *size),
    {
        let mut x = self.read_register(REG_RS as usize);
        if x < size.get_size() as u64 || (x - size.get_size() as u64) < self.stack_location {
            Result::Err("StackUnderflow")
        } else {
            x = x - size.get_size() as u64;
            self.write_register(REG_RS as usize, x as u64);
            let ret = Result::Ok(self.read_memory(x as usize, size));
            self.write_memory(x as usize, 0, size);
            ret
        }
    }

    pub fn push_stack(&mut self, value: u64, size: &Size) -> (r: Result<(), &'static str>)
        requires
            push_stack_ok(old(self)@, *size),
        ensures
            (final(self)@, r) == push_stack_spec(old(self)@, value, *size),
    {
        let x = self.read_register(REG_RS as usize);
        if (x + size.get_size() as u64) > self.program_location {
            Result::Err("StackOverflow")
        } else {
            self.write_register(REG_RS as usize, x + size.get_size() as u64);
            self.write_memory(x as usize, value, size);
            Result::Ok(())
        }
    }

    pub fn read_memory_addressed(&self, slot: usize, size: &Size, mode: &AddressMode) -> (v: u64)
        requires
            *mode == AddressMode::Memory ==> read_memory_ok(self@.memory, slot, *size),
        ensures
            v == read_addressed_spec(self@, slot as int, *size, *mode),
    {
        match mode {
            AddressMode::Memory => self.read_memory(slot, size),
            AddressMode::Bus => 1,
            _ => 0,
        }
    }

    fn read_inc_memory(&self, slot: usize, size: &Size, count: &mut u64, mode: &AddressMode) -> (v: u64)
        requires
            operand_raw_ok(self@, slot, *size, *mode),
            *old(count) + operand_advance(*size, *mode) <= u64::MAX,
        ensures
            v == operand_raw(self@, slot as int, *size, *mode),
            *final(count) == *old(count) + operand_advance(*size, *mode),
    {
        match mode {
            AddressMode::Direct => {
                *count = *count + size.get_size() as u64;
                return self.read_memory(slot, size);
            },
            AddressMode::Register => {
                *count += 1;
                return self.read_memory(slot, &Size::Byte);
            },
            AddressMode::Bus => {
                *count += 1;
                return self.read_memory_addressed(slot, size, mode);
            },
            _ => *count += 1,
        }
        self.read_memory(slot, size)
    }

    pub fn write_program(&mut self, program: &Vec<u8>) -> (r: Result<(), &'static str>)
        requires
            old(self)@.program_location <= old(self)@.memory.len(),
        ensures
            match write_program_spec(old(self)@, program@) {
                None => r == Err::<(), &'static str>("TooLarge") && final(self)@ == old(self)@,
                Some(mem) => r is Ok && final(self)@ == with_memory(old(self)@, mem),
            },
    {
        if program.len() > (self.memory.len() as u64 - self.program_location) as usize {
            return Result::Err("TooLarge");
        }
        let ghost m0 = self@;
        let mut i: usize = 0;
        let n = program.len();
        assert(m0.program_location + n <= m0.memory.len());
        assert(m0.memory.len() == self.memory.len());
        while i < n
            invariant
                m0.memory.len() <= usize::MAX,
                n == program@.len(),
                i <= n,
                m0.program_location + n <= m0.memory.len(),
                self@ == with_memory(m0, self@.memory),
                self@.memory.len() == m0.memory.len(),
                forall|j: int|
                    0 <= j < self@.memory.len() ==> #[trigger] self@.memory[j] == if m0.program_location
                        <= j < m0.program_location + i {
                        program@[j - m0.program_location]
                    } else {
                        m0.memory[j]
                    },
            decreases n - i,
        {
            let b = program[i];
            let ghost prev = self@.memory;
            assert(self.program_location == m0.program_location);
            let at = (self.program_location + i as u64) as usize;
            self.set_byte(at, b);
            assert(self@.memory == prev.update(at as int, b));
            i += 1;
        }
        assert(self@.memory =~= write_program_spec(m0, program@).unwrap());
        Result::Ok(())
    }

    fn read_ok(&self, slot: usize, size: &Size) -> (b: bool)
        ensures
            b == read_memory_ok(self@.memory, slot, *size),
    {
        write_ok(slot, size) && match size {
            Size::Int | Size::Long => slot < self.memory.len(),
            _ => true,
        }
    }

    fn operand_ok(&self, slot: usize, size: &Size, mode: &AddressMode) -> (b: bool)
        ensures
            b == operand_raw_ok(self@, slot, *size, *mode),
    {
        match mode {
            AddressMode::Register => self.read_ok(slot, &Size::Byte),
            AddressMode::Bus => true,
            _ => self.read_ok(slot, size),
        }
    }

    fn peak_ok(&self, size: &Size) -> (b: bool)
        ensures
            b == peak_stack_ok(self@, *size),
    {
        let x = self.read_register(REG_RS as usize);
        let n = size.get_size() as u64;
        x < n || x - n < self.stack_location || self.read_ok((x - n) as usize, size)
    }

    fn pop_ok(&self, size: &Size) -> (b: bool)
        ensures
            b == pop_stack_ok(self@, *size),
    {
        let x = self.read_register(REG_RS as usize);
        let n = size.get_size() as u64;
        self.peak_ok(size) && (x < n || x - n < self.stack_location || write_ok((x - n) as usize, size))
    }

    fn push_ok(&self, size: &Size) -> (b: bool)
        ensures
            b == push_stack_ok(self@, *size),
    {
        let x = self.read_register(REG_RS as usize);
        let n = size.get_size() as u64;
        x <= u64::MAX - n && (x + n > self.program_location || write_ok(x as usize, size))
    }

    /// Reads one operand at `count`, advancing it; `None` where the read cannot complete.
    fn read_operand(&self, count: u64, size: Size, mode: AddressMode) -> (r: Option<(u64, u64)>)
        ensures
            r == operand_read(self@, count, size, mode),
    {
        let adv: u64 = match mode {
            AddressMode::Direct => size.get_size() as u64,
            _ => 1,
        };
        if !self.operand_ok(count as usize, &size, &mode) || count > u64::MAX - adv {
            return None;
        }
        let mut local_count = count;
        let v = self.read_inc_memory(count as usize, &size, &mut local_count, &mode);
        Some((v, local_count))
    }

    /// The value an operand stands for; `Some(None)` for a bus operand, `None` where the
    /// read cannot complete.
    fn operand_value(&self, raw: u64, size: Size, mode: AddressMode) -> (r: Option<Option<u64>>)
        ensures
            r == operand_value(self@, raw, size, mode),
    {
        match mode {
            AddressMode::Direct => Some(Some(raw)),
            AddressMode::Memory => {
                if self.read_ok(raw as usize, &size) {
                    Some(Some(self.read_memory_addressed(raw as usize, &size, &AddressMode::Memory)))
                } else {
                    None
                }
            },
            AddressMode::Register => Some(Some(self.read_register(raw as usize))),
            AddressMode::Bus => Some(None),
        }
    }

    /// Decodes the instruction at rC.
    pub fn decode(&self) -> (d: Decoded)
        ensures
            d == decode_spec(self@),
    {
        let mut local_count = self.read_register(REG_RC as usize);
        let op_code: u8 = match self.read_byte(local_count as usize) {
            Result::Err(_x) => return Decoded::RanOut,
            Result::Ok(x) => x,
        };
        proof {
            lemma_index_below(local_count, self.memory.len());
        }
        local_count += 1;
        let description: u8 = match self.read_byte(local_count as usize) {
            Result::Err(_x) => return Decoded::RanOut,
            Result::Ok(x) => x,
        };
        proof {
            lemma_index_below(local_count, self.memory.len());
        }
        local_count += 1;
        let x1_mode = mode_from(description & 0b11);
        let x2_mode = mode_from((description & 0b1100) >> 2);
        let x1_size = size_from((description & 0b110000) >> 4);
        let x2_size = size_from((description & 0b11000000) >> 6);
        let (x1_value, c3) = match self.read_operand(local_count, x1_size, x1_mode) {
            None => return Decoded::Trap,
            Some(p) => p,
        };
        let (x2_value, c4) = match self.read_operand(c3, x2_size, x2_mode) {
            None => return Decoded::Trap,
            Some(p) => p,
        };
        let x1 = match self.operand_value(x1_value, x1_size, x1_mode) {
            None => return Decoded::Trap,
            Some(None) => return Decoded::BusOperand,
            Some(Some(v)) => v,
        };
        let x2 = match self.operand_value(x2_value, x2_size, x2_mode) {
            None => return Decoded::Trap,
            Some(None) => return Decoded::BusOperand,
            Some(Some(v)) => v,
        };
        Decoded::Ready(
            Instr {
                op: op_code,
                x1_value,
                x2_value,
                x1,
                x2,
                x1_mode,
                x2_mode,
                x1_size,
                x2_size,
                next: c4,
            },
        )
    }

    /// Stores `v` into the place an operand names.
    fn store(&mut self, place: u64, v: u64, size: Size, mode: AddressMode) -> (r: Result<(), &'static str>)
        requires
            store_spec(old(self)@, place, v, size, mode) is Some,
        ensures
            (final(self)@, r) == store_spec(old(self)@, place, v, size, mode).unwrap(),
    {
        match mode {
            AddressMode::Memory => self.write_memory(place as usize, v, &size),
            AddressMode::Register => self.write_register(place as usize, v),
            _ => return Result::Err("InvalidTarget"),
        }
        Result::Ok(())
    }

    /// Performs an operation; `Ok(Some(f))` leaves a floating-point operation to the caller.
    fn op_code(
        &mut self,
        op_code: u8,
        x1_value: u64,
        x2_value: u64,
        x1_true_value: u64,
        x2_true_value: u64,
        x1_mode: AddressMode,
        x2_mode: AddressMode,
        x1_size: Size,
    ) -> (r: Result<Option<FloatOp>, &'static str>)
        requires
            op_spec(old(self)@, op_code, x1_value, x2_value, x1_true_value, x2_true_value, x1_mode, x2_mode, x1_size) is Some,
        ensures
            match op_spec(old(self)@, op_code, x1_value, x2_value, x1_true_value, x2_true_value, x1_mode, x2_mode, x1_size).unwrap() {
                OpOut::Done(m2, res) => final(self)@ == m2 && match res {
                    Ok(()) => r == Ok::<Option<FloatOp>, &'static str>(None),
                    Err(e) => r == Err::<Option<FloatOp>, &'static str>(e),
                },
                OpOut::Float(f) => final(self)@ == old(self)@ && r == Ok::<Option<FloatOp>, &'static str>(Some(f)),
            },
    {
        let x1 = x1_true_value;
        let x2 = x2_true_value;
        match op_code {
            0 => self.running = false,
            1 => {
                match self.store(x2_value, x1, x1_size, x2_mode) {
                    Ok(()) => {},
                    Err(e) => return Err(e),
                }
            },
            2 => self.write_register(2, x1 + x2),
            3 => self.write_register(2, x1 - x2),
            4 => self.write_register(2, x1 * x2),
            5 => self.write_register(2, x1 / x2),
            6 => self.write_register(REG_RC as usize, self.read_register(3)),
            7 => if x1 > x2 {
                self.write_register(REG_RC as usize, self.read_register(3))
            },
            8 => if x1 < x2 {
                self.write_register(REG_RC as usize, self.read_register(3))
            },
            9 => if x1 == x2 {
                self.write_register(REG_RC as usize, self.read_register(3))
            },
            10 => if x1 >= x2 {
                self.write_register(REG_RC as usize, self.read_register(3))
            },
            11 => if x1 <= x2 {
                self.write_register(REG_RC as usize, self.read_register(3))
            },
            12 => if x1 != x2 {
                self.write_register(REG_RC as usize, self.read_register(3))
            },
            13 => return Ok(Some(FloatOp::Add)),
            14 => return Ok(Some(FloatOp::Sub)),
            15 => return Ok(Some(FloatOp::Mul)),
            16 => return Ok(Some(FloatOp::Div)),
            17 => {
                return match self.push_stack(x1, &x1_size) {
                    Ok(()) => Ok(None),
                    Err(e) => Err(e),
                };
            },
            18 => {
                match self.pop_stack(&x1_size) {
                    Ok(x) => {
                        return match self.store(x1_value, x, x1_size, x1_mode) {
                            Ok(()) => Ok(None),
                            Err(e) => Err(e),
                        };
                    },
                    Err(x) => return Err(x),
                }
            },
            19 => {
                let loc = self.read_register(REG_RC as usize);
                self.write_register(REG_RC as usize, x1);
                return match self.push_stack(loc, &Size::Long) {
                    Ok(()) => Ok(None),
                    Err(e) => Err(e),
                };
            },
            20 => {
                match self.pop_stack(&Size::Long) {
                    Ok(x) => self.write_register(REG_RC as usize, x),
                    Err(x) => return Err(x),
                }
            },
            _ => return Err("InvalidOpCode"),
        }
        Ok(None)
    }

    /// Whether storing into the operand's place would not complete.
    fn store_traps(place: u64, size: Size, mode: AddressMode) -> (b: bool)
        ensures
            forall|m: VmModel, v: u64| b == (#[trigger] store_spec(m, place, v, size, mode) is None),
    {
        match mode {
            AddressMode::Memory => !write_ok(place as usize, &size),
            AddressMode::Register => place as usize >= 9,
            _ => false,
        }
    }

    /// Whether the operation of `i`, performed once rC points past it, would not complete,
    /// counting the operation counter's overflow in the checks after it.
    fn op_traps(&self, i: &Instr) -> (b: bool)
        ensures
            b == match instr_op_spec(with_pc(self@, i.next), *i) {
                None => true,
                Some(OpOut::Done(m2, Ok(()))) => post_op_spec(m2) is None,
                _ => false,
            },
    {
        let ghost m1 = with_pc(self@, i.next);
        let x1 = i.x1;
        let x2 = i.x2;
        let rs = self.read_register(REG_RS as usize);
        let n1 = i.x1_size.get_size() as u64;
        let op_none = match i.op {
            1 => Self::store_traps(i.x2_value, i.x1_size, i.x2_mode),
            2 => x1 > u64::MAX - x2,
            3 => x1 < x2,
            4 => x1.checked_mul(x2).is_none(),
            5 => x2 == 0,
            17 => !self.push_ok(&i.x1_size),
            18 => !self.pop_ok(&i.x1_size) || (rs >= n1 && rs - n1 >= self.stack_location && Self::store_traps(
                i.x1_value,
                i.x1_size,
                i.x1_mode,
            )),
            19 => !self.push_ok(&Size::Long),
            20 => !self.pop_ok(&Size::Long),
            _ => false,
        };
        assert(reg(m1, REG_RS as int) == reg(self@, REG_RS as int));
        assert(push_stack_ok(m1, i.x1_size) == push_stack_ok(self@, i.x1_size));
        assert(pop_stack_ok(m1, i.x1_size) == pop_stack_ok(self@, i.x1_size));
        assert(push_stack_ok(with_pc(m1, x1), Size::Long) == push_stack_ok(self@, Size::Long));
        assert(pop_stack_ok(m1, Size::Long) == pop_stack_ok(self@, Size::Long));
        if op_none {
            return true;
        }
        if self.ops_ran < u64::MAX {
            return false;
        }
        let completes = match i.op {
            0 | 2 | 3 | 4 | 5 | 6 | 7 | 8 | 9 | 10 | 11 | 12 => true,
            1 => match i.x2_mode {
                AddressMode::Memory | AddressMode::Register => true,
                _ => false,
            },
            17 => rs + n1 <= self.program_location,
            18 => rs >= n1 && rs - n1 >= self.stack_location && match i.x1_mode {
                AddressMode::Memory | AddressMode::Register => true,
                _ => false,
            },
            19 => rs + 8 <= self.program_location,
            20 => rs >= 8 && rs - 8 >= self.stack_location,
            _ => false,
        };
        completes
    }

    /// The checks after an operation: count it, then stop on success (rE holds 1), on a
    /// halted machine, or at the operation limit.
    fn post_op(&mut self) -> (s: Step)
        requires
            post_op_spec(old(self)@) is Some,
        ensures
            (final(self)@, s) == post_op_spec(old(self)@).unwrap(),
    {
        self.ops_ran += 1;
        if self.read_register(REG_RE as usize) == 1 {
            self.running = false;
            return Step::Finished(Result::Ok(()));
        }
        if !self.running {
            return Step::Finished(Result::Err("VMFailed"));
        }
        if self.ops_ran >= self.op_limit {
            return Step::Finished(Result::Err("HitOpLimit"));
        }
        Step::Continue
    }

    /// Whether the next instruction cannot complete: an overflowing offset or arithmetic,
    /// a division by zero, a register index past r8, or a wide read whose first byte lies
    /// outside the memory.
    pub fn step_traps(&self) -> (b: bool)
        ensures
            b == (step_spec(self@) is None),
    {
        match self.decode() {
            Decoded::Trap => true,
            Decoded::RanOut | Decoded::BusOperand => false,
            Decoded::Ready(i) => self.op_traps(&i),
        }
    }

    /// Executes one instruction.
    pub fn step(&mut self) -> (s: Step)
        requires
            step_spec(old(self)@) is Some,
        ensures
            (final(self)@, s) == step_spec(old(self)@).unwrap(),
    {
        match self.decode() {
            Decoded::RanOut => {
                self.write_register(REG_RE as usize, 2);
                Step::Finished(Result::Err("EndedWrongly"))
            },
            Decoded::BusOperand => Step::Finished(Result::Err("DescriptionError")),
            Decoded::Trap => Step::Continue,
            Decoded::Ready(i) => {
                self.write_register(REG_RC as usize, i.next);
                match self.op_code(i.op, i.x1_value, i.x2_value, i.x1, i.x2, i.x1_mode, i.x2_mode, i.x1_size) {
                    Err(x) => Step::Finished(Result::Err(x)),
                    Ok(Some(f)) => Step::Float(f, i.x1, i.x2),
                    Ok(None) => self.post_op(),
                }
            },
        }
    }

    /// Completes a floating-point instruction whose result has the bit pattern `bits`:
    /// stores it in r2, then runs the checks after an operation.
    pub fn finish_float_op(&mut self, bits: u64) -> (s: Step)
        requires
            old(self)@.ops_ran < u64::MAX,
        ensures
            (final(self)@, s) == post_op_spec(with_register(old(self)@, 2, bits)).unwrap(),
    {
        self.write_register(2, bits);
        self.post_op()
    }

    /// Runs instructions while the machine is running, until the program finishes, a
    /// floating-point instruction waits for its result, or an instruction would not complete.
    pub fn resume(&mut self) -> (e: RunEvent)
        ensures
            (final(self)@, e) == run_spec(old(self)@),
    {
        while self.running
            invariant
                run_spec(self@) == run_spec(old(self)@),
            decreases self.op_limit - self.ops_ran,
        {
            if self.step_traps() {
                return RunEvent::WouldTrap;
            }
            let ghost before = self@;
            match self.step() {
                Step::Continue => {
                    proof {
                        lemma_continue_progress(before);
                    }
                },
                Step::Finished(r) => return RunEvent::Finished(r),
                Step::Float(f, a, b) => return RunEvent::Float(f, a, b),
            }
        }
        RunEvent::Finished(Result::Err("DescriptionError"))
    }

    /// Sets the machine running and runs it (see [`VmState::resume`]).
    pub fn run_set_program(&mut self) -> (e: RunEvent)
        ensures
            (final(self)@, e) == run_spec(VmModel { running: true, ..old(self)@ }),
    {
        self.running = true;
        self.resume()
    }

    /// Copies `program` to the program area and runs it; a program larger than that area is
    /// refused with "TooLarge".
    pub fn run_program(&mut self, program: &Vec<u8>) -> (e: RunEvent)
        requires
            old(self)@.program_location <= old(self)@.memory.len(),
        ensures
            match write_program_spec(old(self)@, program@) {
                None => final(self)@ == old(self)@ && e == RunEvent::Finished(Err("TooLarge")),
                Some(mem) => (final(self)@, e) == run_spec(
                    VmModel { running: true, ..with_memory(old(self)@, mem) },
                ),
            },
    {
        match self.write_program(program) {
            Result::Err(x) => RunEvent::Finished(Result::Err(x)),
            Result::Ok(()) => self.run_set_program(),
        }
    }

    /// Number of operations run so far.
    pub fn ops_ran(&self) -> (n: u64)
        ensures
            n == self@.ops_ran,
    {
        self.ops_ran
    }

    fn read_byte(&self, loc: usize) -> (r: Result<u8, &'static str>)
        ensures
            r == if loc < self@.memory.len() {
                Ok::<u8, &'static str>(self@.memory[loc as int])
            } else {
                Err("RanOut")
            },
    {
        if loc < self.memory.len() {
            Result::Ok(self.memory[loc])
        } else {
            Result::Err("RanOut")
        }
    }
}

} // verus!

verus! {

/// Reading back what a write stored at the same place and width gives the value cut down
/// to that width (the value modulo 2 to the power of 8 times the width in bytes).
pub proof fn lemma_read_after_write(mem: Seq<u8>, slot: int, value: u64, size: Size)
    requires
        0 <= slot,
        slot + size.spec_size() <= mem.len(),
    ensures
        read_memory_spec(write_memory_spec(mem, slot, value, size), slot, size)
            == truncate(value, size.spec_size()),
{
    lemma_le_roundtrip(mem, slot, value, size.spec_size());
}

/// A read is the little-endian number formed by the bytes one-byte reads give, each 0 past
/// the end of memory, and it is below 2 to the power of 8 times the width in bytes.
pub proof fn lemma_read_memory_bytes(mem: Seq<u8>, slot: int, size: Size)
    ensures
        read_memory_spec(mem, slot, size) == le_read(mem, slot, size.spec_size()),
        read_memory_spec(mem, slot, size) < pow256(size.spec_size()),
        read_memory_spec(mem, slot, Size::Byte) == byte_at(mem, slot),
        slot >= mem.len() ==> read_memory_spec(mem, slot, Size::Byte) == 0,
{
    lemma_le_read_bound(mem, slot, size.spec_size());
    lemma_le_read_bound(mem, slot, 1);
    reveal_with_fuel(le_read, 2);
    reveal_with_fuel(pow256, 9);
}

/// A write leaves every byte outside its range, and the memory's length, as they were.
pub proof fn lemma_write_frame(mem: Seq<u8>, slot: int, value: u64, size: Size, i: int)
    requires
        0 <= i < mem.len(),
        i < slot || slot + size.spec_size() <= i,
    ensures
        write_memory_spec(mem, slot, value, size).len() == mem.len(),
        write_memory_spec(mem, slot, value, size)[i] == mem[i],
{
}

/// Reading a register gives what was last written to it; the other registers keep their values.
pub proof fn lemma_register_read_after_write(m: VmModel, r: int, v: u64, other: int)
    requires
        m.registers.len() == 9,
        0 <= r < 9,
        other != r,
    ensures
        reg(with_register(m, r, v), r) == v,
        reg(with_register(m, r, v), other) == reg(m, other),
{
}

proof fn lemma_write_write(mem: Seq<u8>, slot: int, v: u64, w: u64, size: Size)
    ensures
        write_memory_spec(write_memory_spec(mem, slot, v, size), slot, w, size)
            == write_memory_spec(mem, slot, w, size),
{
    assert(write_memory_spec(write_memory_spec(mem, slot, v, size), slot, w, size)
        =~= write_memory_spec(mem, slot, w, size));
}

proof fn lemma_write_zero_same(mem: Seq<u8>, slot: int, size: Size)
    requires
        forall|i: int| slot <= i < slot + size.spec_size() ==> mem[i] == 0,
    ensures
        write_memory_spec(mem, slot, 0, size) == mem,
{
    assert forall|k: nat| k < 8 implies le_byte(0, k) == 0 by {
        let s: u64 = (8 * k) as u64;
        assert(((0u64 >> s) & 0xff) as u8 == 0) by (bit_vector);
    }
    assert(write_memory_spec(mem, slot, 0, size) =~= mem);
}

/// A push that succeeds is undone by a pop of the same width: the pop succeeds and returns
/// the pushed value cut down to the width (the value modulo 2 to the power of 8 times the
/// width), peeking right after the push sees that same value, and the pop restores the stack
/// pointer and clears the pushed bytes, so that where they were 0 before the push the machine
/// is back as it was.
pub proof fn lemma_push_then_pop(m: VmModel, value: u64, size: Size)
    requires
        m.registers.len() == 9,
        m.stack_location <= stack_pointer(m),
        stack_pointer(m) + size.spec_size() <= m.program_location,
        m.program_location <= m.memory.len(),
        m.memory.len() <= usize::MAX,
    ensures
        ({
            let (m1, r1) = push_stack_spec(m, value, size);
            let (m2, r2) = pop_stack_spec(m1, size);
            &&& r1 is Ok
            &&& peak_stack_spec(m1, size) == Some(truncate(value, size.spec_size()))
            &&& r2 == Ok::<u64, &'static str>(truncate(value, size.spec_size()))
            &&& stack_pointer(m2) == stack_pointer(m)
            &&& m2.memory == write_memory_spec(m.memory, stack_pointer(m) as int, 0, size)
            &&& (forall|i: int|
                stack_pointer(m) <= i < stack_pointer(m) + size.spec_size() ==> m.memory[i] == 0)
                ==> m2 == m
        }),
{
    let x = stack_pointer(m);
    let n = size.spec_size();
    let (m1, r1) = push_stack_spec(m, value, size);
    assert(stack_pointer(m1) == x + n);
    assert((x as usize) as int == x);
    lemma_read_after_write(m.memory, x as int, value, size);
    let (m2, r2) = pop_stack_spec(m1, size);
    lemma_write_write(m.memory, x as int, value, 0, size);
    if forall|i: int| x <= i < x + n ==> m.memory[i] == 0 {
        lemma_write_zero_same(m.memory, x as int, size);
        assert(m2.registers =~= m.registers);
    }
}

proof fn lemma_writes_commute(mem: Seq<u8>, s1: int, v1: u64, z1: Size, s2: int, v2: u64, z2: Size)
    requires
        0 <= s1,
        s1 + z1.spec_size() <= s2,
        s2 + z2.spec_size() <= mem.len(),
    ensures
        write_memory_spec(write_memory_spec(mem, s1, v1, z1), s2, v2, z2)
            == write_memory_spec(write_memory_spec(mem, s2, v2, z2), s1, v1, z1),
{
    assert(write_memory_spec(write_memory_spec(mem, s1, v1, z1), s2, v2, z2)
        =~= write_memory_spec(write_memory_spec(mem, s2, v2, z2), s1, v1, z1));
}

/// Last in, first out: after two pushes that succeed, two pops of the same widths give back
/// the second value and then the first (each cut down to its width), restore the stack
/// pointer and clear the pushed bytes, so that where they were 0 before the pushes the
/// machine is back as it was.
pub proof fn lemma_two_pushes_two_pops(m: VmModel, a: u64, sa: Size, b: u64, sb: Size)
    requires
        m.registers.len() == 9,
        m.stack_location <= stack_pointer(m),
        stack_pointer(m) + sa.spec_size() + sb.spec_size() <= m.program_location,
        m.program_location <= m.memory.len(),
        m.memory.len() <= usize::MAX,
    ensures
        ({
            let x = stack_pointer(m);
            let (m1, r1) = push_stack_spec(m, a, sa);
            let (m2, r2) = push_stack_spec(m1, b, sb);
            let (m3, p1) = pop_stack_spec(m2, sb);
            let (m4, p2) = pop_stack_spec(m3, sa);
            &&& r1 is Ok
            &&& r2 is Ok
            &&& p1 == Ok::<u64, &'static str>(truncate(b, sb.spec_size()))
            &&& p2 == Ok::<u64, &'static str>(truncate(a, sa.spec_size()))
            &&& stack_pointer(m4) == x
            &&& m4.memory == write_memory_spec(
                write_memory_spec(m.memory, x + sa.spec_size(), 0, sb),
                x as int,
                0,
                sa,
            )
            &&& (forall|i: int| x <= i < x + sa.spec_size() + sb.spec_size() ==> m.memory[i] == 0)
                ==> m4 == m
        }),
{
    let x = stack_pointer(m);
    let na = sa.spec_size();
    let nb = sb.spec_size();
    let (m1, r1) = push_stack_spec(m, a, sa);
    assert(stack_pointer(m1) == x + na);
    assert((x as usize) as int == x);
    lemma_push_then_pop(m1, b, sb);
    let (m2, r2) = push_stack_spec(m1, b, sb);
    let (m3, p1) = pop_stack_spec(m2, sb);
    let mz = with_memory(m, write_memory_spec(m.memory, x + na, 0, sb));
    lemma_writes_commute(m.memory, x as int, a, sa, x + na, 0, sb);
    assert(((x + na) as u64 as usize) as int == x + na);
    assert(m3.registers =~= push_stack_spec(mz, a, sa).0.registers);
    assert(m3 == push_stack_spec(mz, a, sa).0);
    lemma_push_then_pop(mz, a, sa);
    if forall|i: int| x <= i < x + na + nb ==> m.memory[i] == 0 {
        lemma_write_zero_same(m.memory, x + na, sb);
        lemma_write_zero_same(m.memory, x as int, sa);
        assert(mz == m);
    }
}

/// Peeking sees what a pop of the same width would return: nothing exactly when the stack
/// holds fewer bytes than the width, and then the pop is refused with "StackUnderflow";
/// otherwise the value below the stack pointer, which the pop returns.
pub proof fn lemma_peek_then_pop(m: VmModel, size: Size)
    requires
        stack_pointer(m) <= usize::MAX,
    ensures
        peak_stack_spec(m, size) is None <==> stack_underflows(m, size),
        peak_stack_spec(m, size) is None ==> pop_stack_spec(m, size) == (m, Err::<u64, &'static str>("StackUnderflow")),
        peak_stack_spec(m, size) matches Some(v) ==> pop_stack_spec(m, size).1 == Ok::<u64, &'static str>(v)
            && v == read_memory_spec(m.memory, stack_pointer(m) - size.spec_size(), size),
{
}

/// Pushes and pops, whether they succeed or not, keep the stack pointer between the
/// stack's start and the program's start, and leave both starts where they were.
pub proof fn lemma_stack_pointer_stays_in_bounds(m: VmModel, value: u64, size: Size)
    requires
        m.registers.len() == 9,
        m.stack_location <= stack_pointer(m) <= m.program_location,
    ensures
        ({
            let m1 = push_stack_spec(m, value, size).0;
            let m2 = pop_stack_spec(m, size).0;
            &&& m1.stack_location == m.stack_location
            &&& m1.program_location == m.program_location
            &&& m1.stack_location <= stack_pointer(m1) <= m1.program_location
            &&& m2.stack_location == m.stack_location
            &&& m2.program_location == m.program_location
            &&& m2.stack_location <= stack_pointer(m2) <= m2.program_location
        }),
{
}

/// A push that would pass the program's start is refused with "StackOverflow" and changes nothing;
/// a pop that would go below the stack's start is refused with "StackUnderflow" and changes nothing.
pub proof fn lemma_stack_bounds(m: VmModel, value: u64, size: Size)
    ensures
        stack_pointer(m) + size.spec_size() > m.program_location ==> push_stack_spec(m, value, size)
            == (m, Err::<(), &'static str>("StackOverflow")),
        stack_pointer(m) - size.spec_size() < m.stack_location ==> pop_stack_spec(m, size) == (
            m,
            Err::<u64, &'static str>("StackUnderflow"),
        ),
{
}

/// After an operation that completes, a 1 in the error register rE ends the program
/// successfully and stops the machine.
pub proof fn lemma_error_register_one_ends(m: VmModel)
    requires
        m.ops_ran < u64::MAX,
        reg(m, REG_RE as int) == 1,
    ensures
        post_op_spec(m) == Some(
            (VmModel { ops_ran: (m.ops_ran + 1) as u64, running: false, ..m }, Step::Finished(Ok(()))),
        ),
{
}

/// An instruction whose opcode or description byte lies past the memory ends the program
/// with "EndedWrongly" and error code 2 in rE.
pub proof fn lemma_ran_out_sets_error(m: VmModel)
    requires
        decode_spec(m) == Decoded::RanOut,
    ensures
        step_spec(m) == Some(
            (with_register(m, REG_RE as int, 2), Step::Finished(Err("EndedWrongly"))),
        ),
{
}

} // verus!

verus! {

/// The arithmetic instructions store their result in r2: Add (2) the sum, Sub (3) the
/// difference, Mul (4) the product and Div (5) the quotient rounded down, that is the
/// number q with q * x2 <= x1 < (q + 1) * x2, where x1 and x2 are the values of the two
/// operands.
pub proof fn lemma_arithmetic_results(m: VmModel)
    requires
        m.registers.len() == 9,
        decode_spec(m) matches Decoded::Ready(i) && 2 <= i.op <= 5,
        step_spec(m) is Some,
    ensures
        ({
            let i = decode_spec(m)->Ready_0;
            let r2 = reg(step_spec(m).unwrap().0, 2);
            &&& i.op == 2 ==> r2 == i.x1 + i.x2
            &&& i.op == 3 ==> r2 + i.x2 == i.x1
            &&& i.op == 4 ==> r2 == i.x1 * i.x2
            &&& i.op == 5 ==> i.x2 > 0 && r2 * i.x2 <= i.x1 && i.x1 < (r2 + 1) * i.x2
        }),
{
    let i = decode_spec(m)->Ready_0;
    let m1 = with_pc(m, i.next);
    if i.op == 5 {
        let q = i.x1 / i.x2;
        assert(q * i.x2 <= i.x1 && i.x1 < (q + 1) * i.x2) by (nonlinear_arith)
            requires
                i.x2 > 0,
                q == i.x1 / i.x2,
        ;
    }
}

/// The jump instructions: Jmp (6) always, and Jg (7), Jl (8), Je (9), Jge (10), Jle (11)
/// and Jne (12) when the first operand's value is greater than, less than, equal to, at
/// least, at most or different from the second's, set rC to the address in r3; otherwise
/// rC points at the next instruction. No other register changes.
pub proof fn lemma_jumps(m: VmModel)
    requires
        m.registers.len() == 9,
        decode_spec(m) matches Decoded::Ready(i) && 6 <= i.op <= 12,
        m.ops_ran < u64::MAX,
    ensures
        ({
            let i = decode_spec(m)->Ready_0;
            let taken = if i.op == 6 {
                true
            } else if i.op == 7 {
                i.x1 > i.x2
            } else if i.op == 8 {
                i.x1 < i.x2
            } else if i.op == 9 {
                i.x1 == i.x2
            } else if i.op == 10 {
                i.x1 >= i.x2
            } else if i.op == 11 {
                i.x1 <= i.x2
            } else {
                i.x1 != i.x2
            };
            let m2 = step_spec(m).unwrap().0;
            &&& step_spec(m) is Some
            &&& reg(m2, REG_RC as int) == if taken { reg(m, 3) } else { i.next }
            &&& forall|r: int| 0 <= r < 9 && r != REG_RC ==> reg(m2, r) == reg(m, r)
        }),
{
}

/// Mov (1) stores the first operand's value into the place the second operand names: a
/// register then holds it, and memory then reads it back cut down to the first operand's
/// width; nothing else in memory changes.
pub proof fn lemma_move_stores(m: VmModel)
    requires
        m.registers.len() == 9,
        decode_spec(m) matches Decoded::Ready(i) && i.op == 1,
        step_spec(m) is Some,
    ensures
        ({
            let i = decode_spec(m)->Ready_0;
            let m2 = step_spec(m).unwrap().0;
            &&& i.x2_mode == AddressMode::Register && (i.x2_value as usize) < 9 ==> reg(m2, i.x2_value as usize as int) == i.x1
            &&& i.x2_mode == AddressMode::Memory && (i.x2_value as usize) + i.x1_size.spec_size() <= m.memory.len()
                ==> read_memory_spec(m2.memory, i.x2_value as usize as int, i.x1_size) == truncate(i.x1, i.x1_size.spec_size())
                && forall|k: int| 0 <= k < m.memory.len() && !((i.x2_value as usize) <= k < (i.x2_value as usize) + i.x1_size.spec_size())
                    ==> m2.memory[k] == m.memory[k]
        }),
{
    let i = decode_spec(m)->Ready_0;
    let m1 = with_pc(m, i.next);
    if i.x2_mode == AddressMode::Memory && (i.x2_value as usize) + i.x1_size.spec_size() <= m.memory.len() {
        lemma_read_after_write(m1.memory, i.x2_value as usize as int, i.x1, i.x1_size);
    }
}

/// The stack instructions, where they go on: Push (17) puts the first operand's value on
/// the stack (peeking then sees it, cut to its width); Call (19) pushes the address of the
/// next instruction as a long and jumps to the first operand's value; Ret (20) pops a long
/// and jumps to it.
pub proof fn lemma_stack_instructions(m: VmModel)
    requires
        m.registers.len() == 9,
        m.stack_location <= stack_pointer(m) <= m.program_location,
        m.program_location <= m.memory.len() <= usize::MAX,
        decode_spec(m) matches Decoded::Ready(i) && (i.op == 17 || i.op == 19 || i.op == 20),
        step_spec(m) matches Some((_, s)) && s == Step::Continue,
    ensures
        ({
            let i = decode_spec(m)->Ready_0;
            let m2 = step_spec(m).unwrap().0;
            let x = stack_pointer(m);
            &&& i.op == 17 ==> stack_pointer(m2) == x + i.x1_size.spec_size()
                && peak_stack_spec(m2, i.x1_size) == Some(truncate(i.x1, i.x1_size.spec_size()))
            &&& i.op == 19 ==> reg(m2, REG_RC as int) == i.x1 && stack_pointer(m2) == x + 8
                && peak_stack_spec(m2, Size::Long) == Some(i.next)
            &&& i.op == 20 ==> x >= 8 && stack_pointer(m2) == x - 8
                && reg(m2, REG_RC as int) == read_memory_spec(m.memory, x - 8, Size::Long)
        }),
{
    let i = decode_spec(m)->Ready_0;
    let m1 = with_pc(m, i.next);
    let x = stack_pointer(m);
    if i.op == 17 {
        if x + i.x1_size.spec_size() <= m.program_location {
            lemma_push_then_pop(m1, i.x1, i.x1_size);
        }
    } else if i.op == 19 {
        let mc = with_pc(m1, i.x1);
        if x + 8 <= m.program_location {
            lemma_push_then_pop(mc, i.next, Size::Long);
        }
    } else {
        assert(!stack_underflows(m1, Size::Long));
        assert((x - 8) as u64 as usize as int == x - 8);
    }
}

} // verus!
