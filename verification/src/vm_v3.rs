use vstd::prelude::*;
use crate::le_bytes::{le_read, le_store, truncate, is_width, read_le, write_le, truncate_to, lemma_le_roundtrip};

verus! {

/// Register index of the program counter rC.
pub const REG_RC: u8 = 4;
/// Register index of the stack pointer rS.
pub const REG_RS: u8 = 5;
/// Register index of the error register rE.
pub const REG_RE: u8 = 6;

/// Instructions a program may run before it is stopped.
pub const DEFAULT_OP_LIMIT: u64 = 1000;

/// An instruction, or its operand bytes, is cut off by the end of memory.
pub const ERR_ENDED_WRONGLY: u64 = 2;
/// An operand uses the bus, which has no value here.
pub const ERR_BUS: u64 = 3;
/// The opcode names no instruction.
pub const ERR_INVALID_OP_CODE: u64 = 4;
/// A value is written to a direct or bus operand.
pub const ERR_INVALID_TARGET: u64 = 5;
/// A memory access leaves the memory, or a register index is past r8.
pub const ERR_OUT_OF_BOUNDS: u64 = 6;
/// The program did not end within the operation limit.
pub const ERR_OP_LIMIT: u64 = 7;
/// The program does not fit in the program area.
pub const ERR_TOO_LARGE: u64 = 8;

/// Width of an operand or memory access.
#[derive(Debug, Clone, Copy, PartialEq, Eq, Structural)]
pub enum Size {
    Byte,
    Word,
    Int,
    Long,
}

impl Size {
    /// Number of bytes covered by this width.
    pub open spec fn spec_size(&self) -> nat {
        match self {
            Size::Byte => 1,
            Size::Word => 2,
            Size::Int => 4,
            Size::Long => 8,
        }
    }

    pub fn get_size(&self) -> (n: u8)
        ensures
            n == self.spec_size(),
    {
        match self {
            Size::Byte => 1,
            Size::Word => 2,
            Size::Int => 4,
            Size::Long => 8,
        }
    }
}

/// Where an operand's value is found.
#[derive(Debug, Clone, Copy, PartialEq, Eq, Structural)]
pub enum AddressMode {
    Direct,
    Register,
    Memory,
    Bus,
}

/// An operand as encoded in the bytecode: its raw value, width and address mode.
#[derive(Debug, Clone, Copy, PartialEq, Eq, Structural)]
pub struct Operand {
    pub direct_value: u64,
    pub size: Size,
    pub address_mode: AddressMode,
}

/// Mathematical picture of a [`VmState`].
pub struct VmModel {
    pub memory: Seq<u8>,
    pub registers: Seq<u64>,
    pub array_registers: Seq<Seq<u64>>,
    pub standard_memory: u64,
    pub stack_memory: u64,
    pub program_memory: u64,
    pub op_limit: u64,
}

/// A register machine whose byte memory holds general memory, then the stack, then the
/// program, with nine 64-bit registers (r0-r3, rC, rS, rE, rR, rT).
pub struct VmState {
    memory: Vec<u8>,
    registers: [u64; 9],
    array_registers: [[u64; 32]; 3],
    standard_memory: u64,
    stack_memory: u64,
    program_memory: u64,
    op_limit: u64,
}

impl View for VmState {
    type V = VmModel;

    closed spec fn view(&self) -> VmModel {
        VmModel {
            memory: self.memory@,
            registers: self.registers@,
            array_registers: self.array_registers@.map_values(|a: [u64; 32]| a@),
            standard_memory: self.standard_memory,
            stack_memory: self.stack_memory,
            program_memory: self.program_memory,
            op_limit: self.op_limit,
        }
    }
}

/// The layout holds together: general memory ends where the stack starts, the stack ends
/// where the program starts, and the program area ends at the end of memory.
pub open spec fn model_wf(m: VmModel) -> bool {
    &&& m.registers.len() == 9
    &&& m.standard_memory <= m.stack_memory <= m.program_memory
    &&& m.memory.len() == m.program_memory
    &&& m.program_memory <= isize::MAX
}

/// Value of register `r`.
pub open spec fn reg(m: VmModel, r: int) -> u64 {
    m.registers[r]
}

/// `m` with register `r` set to `v`.
pub open spec fn with_register(m: VmModel, r: int, v: u64) -> VmModel {
    VmModel { registers: m.registers.update(r, v), ..m }
}

/// The value read at `location` in the given mode and width: the location itself when
/// direct, the register it names, or the little-endian bytes at it in memory (both cut
/// down to the width). Reading the bus, a register past r8 or bytes outside memory fails.
pub open spec fn read_spec(m: VmModel, location: u64, mode: AddressMode, size: Size) -> Result<u64, u64> {
    let n = size.spec_size();
    match mode {
        AddressMode::Direct => Ok(location),
        AddressMode::Register => if location < 9 {
            Ok(truncate(reg(m, location as int), n))
        } else {
            Err(ERR_OUT_OF_BOUNDS)
        },
        AddressMode::Memory => if location + n <= m.memory.len() {
            Ok(le_read(m.memory, location as int, n) as u64)
        } else {
            Err(ERR_OUT_OF_BOUNDS)
        },
        AddressMode::Bus => Err(ERR_BUS),
    }
}

/// The machine after writing `value` at `location` in the given mode and width: the value
/// cut down to the width into a register, or its little-endian bytes into memory. A direct
/// or bus target, a register past r8 or bytes outside memory fail.
pub open spec fn write_spec(m: VmModel, value: u64, location: u64, mode: AddressMode, size: Size) -> Result<VmModel, u64> {
    let n = size.spec_size();
    match mode {
        AddressMode::Register => if location < 9 {
            Ok(with_register(m, location as int, truncate(value, n)))
        } else {
            Err(ERR_OUT_OF_BOUNDS)
        },
        AddressMode::Memory => if location + n <= m.memory.len() {
            Ok(VmModel { memory: le_store(m.memory, location as int, value, n), ..m })
        } else {
            Err(ERR_OUT_OF_BOUNDS)
        },
        _ => Err(ERR_INVALID_TARGET),
    }
}

/// A fresh machine with `max_memory` bytes of general memory, `max_stack` of stack and
/// `max_program` of program, all zero; rC points at the program and rS at the stack.
pub open spec fn fresh_model(max_memory: u64, max_stack: u64, max_program: u64) -> VmModel {
    let stack = max_memory;
    let program = (max_memory + max_stack) as u64;
    VmModel {
        memory: Seq::new((max_memory + max_stack + max_program) as nat, |i: int| 0u8),
        registers: seq![0, 0, 0, 0, program, stack, 0, 0, 0],
        array_registers: Seq::new(3, |i: int| Seq::new(32, |j: int| 0u64)),
        standard_memory: max_memory,
        stack_memory: program,
        program_memory: (max_memory + max_stack + max_program) as u64,
        op_limit: DEFAULT_OP_LIMIT,
    }
}

/// Number of operands the instruction with this opcode takes: none for End (0), two for
/// Mov (1), three for Add (2) and Sub (3); `None` for any other opcode.
pub open spec fn operand_count(op: u16) -> Option<nat> {
    if op == 0 {
        Some(0)
    } else if op == 1 {
        Some(2)
    } else if op == 2 || op == 3 {
        Some(3)
    } else {
        None
    }
}

/// Width named by two description bits.
pub open spec fn decode_size(b: u8) -> Size {
    if b == 0 {
        Size::Byte
    } else if b == 1 {
        Size::Word
    } else if b == 2 {
        Size::Int
    } else {
        Size::Long
    }
}

/// Address mode named by two description bits.
pub open spec fn decode_mode(b: u8) -> AddressMode {
    if b == 0 {
        AddressMode::Direct
    } else if b == 1 {
        AddressMode::Register
    } else if b == 2 {
        AddressMode::Memory
    } else {
        AddressMode::Bus
    }
}

/// The description nibble of operand `i`: description bytes start at `ds`, each describing
/// two operands, the earlier one in its low four bits.
pub open spec fn nibble(mem: Seq<u8>, ds: int, i: nat) -> u8 {
    let d = mem[ds + i / 2];
    if i % 2 == 0 {
        d & 15
    } else {
        d >> 4u8
    }
}

/// Operands `i..count` of an instruction whose description bytes start at `ds` and whose
/// operand bytes continue at `data`: each nibble gives a width (bits 0-1) and a mode
/// (bits 2-3), each operand is that many little-endian bytes. Also gives where the operand
/// bytes end; `None` when they run past the memory.
pub open spec fn decode_operands(mem: Seq<u8>, ds: int, data: int, i: nat, count: nat) -> Option<(Seq<Operand>, int)>
    decreases count - i,
{
    if i >= count {
        Some((seq![], data))
    } else {
        let nib = nibble(mem, ds, i);
        let size = decode_size(nib & 3);
        let mode = decode_mode(nib >> 2u8);
        let n = size.spec_size();
        if data + n > mem.len() {
            None
        } else {
            let o = Operand {
                direct_value: le_read(mem, data, n) as u64,
                size,
                address_mode: mode,
            };
            match decode_operands(mem, ds, data + n, i + 1, count) {
                None => None,
                Some((rest, end)) => Some((seq![o] + rest, end)),
            }
        }
    }
}

/// Decoding operands `i..count` yields `count - i` of them.
pub proof fn lemma_decode_len(mem: Seq<u8>, ds: int, data: int, i: nat, count: nat)
    requires
        decode_operands(mem, ds, data, i, count) is Some,
        i <= count,
    ensures
        decode_operands(mem, ds, data, i, count).unwrap().0.len() == count - i,
    decreases count - i,
{
    if i < count {
        let n = decode_size(nibble(mem, ds, i) & 3).spec_size();
        lemma_decode_len(mem, ds, data + n, i + 1, count);
    }
}

/// The value an operand stands for (see [`read_spec`]).
pub open spec fn operand_value(m: VmModel, o: Operand) -> Result<u64, u64> {
    read_spec(m, o.direct_value, o.address_mode, o.size)
}

/// Writing `v` to the place a destination operand names, with its width.
pub open spec fn store_spec(m: VmModel, v: u64, dst: Operand) -> Result<VmModel, u64> {
    write_spec(m, v, dst.direct_value, dst.address_mode, dst.size)
}

/// The effect of an instruction with opcode 1 (Mov: first operand's value into the second
/// operand), 2 (Add: sum of the first two into the third) or 3 (Sub: the second minus the
/// first into the third); the arithmetic wraps around at 2^64.
pub open spec fn execute_spec(m: VmModel, op: u16, ops: Seq<Operand>) -> Result<VmModel, u64> {
    match operand_value(m, ops[0]) {
        Err(e) => Err(e),
        Ok(a) => if op == 1 {
            store_spec(m, a, ops[1])
        } else {
            match operand_value(m, ops[1]) {
                Err(e) => Err(e),
                Ok(b) => if op == 2 {
                    store_spec(m, a.wrapping_add(b), ops[2])
                } else {
                    store_spec(m, b.wrapping_sub(a), ops[2])
                },
            }
        },
    }
}

/// What one step leaves.
#[derive(Debug, Clone, Copy, PartialEq, Eq)]
pub enum Step {
    Continue,
    Finished(Result<(), u64>),
}

/// Stopping with error code `e`, which is also stored in rE.
pub open spec fn fail(m: VmModel, e: u64) -> (VmModel, Step) {
    (with_register(m, REG_RE as int, e), Step::Finished(Err(e)))
}

/// After an instruction: a 1 in rE ends the program successfully, any other nonzero value
/// ends it with that error code, and 0 lets it go on.
pub open spec fn post_spec(m: VmModel) -> (VmModel, Step) {
    let e = reg(m, REG_RE as int);
    if e == 1 {
        (m, Step::Finished(Ok(())))
    } else if e != 0 {
        (m, Step::Finished(Err(e)))
    } else {
        (m, Step::Continue)
    }
}

/// One instruction at rC: two opcode bytes (little-endian), the description bytes, then the
/// operand bytes. rC at or past the end of memory, or opcode 0 (End), ends the program
/// successfully. rC moves past the instruction before it is performed.
pub open spec fn step_spec(m: VmModel) -> (VmModel, Step) {
    let pc = reg(m, REG_RC as int);
    let len = m.memory.len();
    if pc >= len {
        (m, Step::Finished(Ok(())))
    } else if pc + 2 > len {
        fail(m, ERR_ENDED_WRONGLY)
    } else {
        let op = (m.memory[pc as int] + 256 * m.memory[pc + 1]) as u16;
        if op == 0 {
            (m, Step::Finished(Ok(())))
        } else {
            match operand_count(op) {
                None => fail(m, ERR_INVALID_OP_CODE),
                Some(c) => {
                    let ds = pc + 2;
                    let nd = (c + 1) / 2;
                    if ds + nd > len {
                        fail(m, ERR_ENDED_WRONGLY)
                    } else {
                        match decode_operands(m.memory, ds, ds + nd, 0, c) {
                            None => fail(m, ERR_ENDED_WRONGLY),
                            Some((ops, end)) => {
                                let m1 = with_register(m, REG_RC as int, end as u64);
                                match execute_spec(m1, op, ops) {
                                    Err(e) => fail(m1, e),
                                    Ok(m2) => post_spec(m2),
                                }
                            },
                        }
                    }
                },
            }
        }
    }
}

/// Running at most `fuel` instructions; a program still going after them stops with
/// [`ERR_OP_LIMIT`].
pub open spec fn run_spec(m: VmModel, fuel: nat) -> (VmModel, Result<(), u64>)
    decreases fuel,
{
    if fuel == 0 {
        (with_register(m, REG_RE as int, ERR_OP_LIMIT), Err(ERR_OP_LIMIT))
    } else {
        match step_spec(m) {
            (m1, Step::Continue) => run_spec(m1, (fuel - 1) as nat),
            (m1, Step::Finished(r)) => (m1, r),
        }
    }
}

/// Loading `program` at the start of the program area (rC pointing at it, rE cleared) and
/// running it within the operation limit; a program larger than the area is refused with
/// [`ERR_TOO_LARGE`].
pub open spec fn set_run_spec(m: VmModel, program: Seq<u8>) -> (VmModel, Result<(), u64>) {
    if program.len() > m.program_memory - m.stack_memory {
        (with_register(m, REG_RE as int, ERR_TOO_LARGE), Err(ERR_TOO_LARGE))
    } else {
        let start = m.stack_memory as int;
        let mem = Seq::new(
            m.memory.len(),
            |i: int|
                if start <= i < start + program.len() {
                    program[i - start]
                } else {
                    m.memory[i]
                },
        );
        let m1 = VmModel {
            memory: mem,
            registers: m.registers.update(REG_RC as int, m.stack_memory).update(REG_RE as int, 0),
            ..m
        };
        run_spec(m1, m.op_limit as nat)
    }
}

fn count_operands(op: u16) -> (c: Option<u8>)
    ensures
        match operand_count(op) {
            None => c is None,
            Some(n) => c == Some(n as u8),
        },
{
    match op {
        0 => Some(0),
        1 => Some(2),
        2 | 3 => Some(3),
        _ => None,
    }
}

fn size_from(b: u8) -> (s: Size)
    ensures
        s == decode_size(b),
{
    match b {
        0 => Size::Byte,
        1 => Size::Word,
        2 => Size::Int,
        _ => Size::Long,
    }
}

fn mode_from(b: u8) -> (m: AddressMode)
    ensures
        m == decode_mode(b),
{
    match b {
        0 => AddressMode::Direct,
        1 => AddressMode::Register,
        2 => AddressMode::Memory,
        _ => AddressMode::Bus,
    }
}

fn zeroed(n: u64) -> (v: Vec<u8>)
    requires
        n <= usize::MAX,
    ensures
        v@ == Seq::new(n as nat, |i: int| 0u8),
{
    let mut vec: Vec<u8> = Vec::new();
    let mut i: u64 = 0;
    while i < n
        invariant
            i <= n,
            vec@ == Seq::new(i as nat, |j: int| 0u8),
        decreases n - i,
    {
        vec.push(0);
        i += 1;
    }
    vec
}

impl VmState {
    /// The machine's layout holds together.
    pub closed spec fn wf(&self) -> bool {
        model_wf(self@)
    }

    pub fn new(max_memory: u64, max_stack: u64, max_program: u64) -> (s: Self)
        requires
            max_memory + max_stack + max_program <= isize::MAX,
        ensures
            s.wf(),
            s@ == fresh_model(max_memory, max_stack, max_program),
    {
        let total = max_memory + max_stack + max_program;
        let s = VmState {
            memory: zeroed(total),
            registers: [0, 0, 0, 0, max_memory + max_stack, max_memory, 0, 0, 0],
            array_registers: [[0u64; 32]; 3],
            standard_memory: max_memory,
            stack_memory: max_memory + max_stack,
            program_memory: total,
            op_limit: DEFAULT_OP_LIMIT,
        };
        assert(s@.registers =~= fresh_model(max_memory, max_stack, max_program).registers);
        assert forall|i: int| 0 <= i < 3 implies s@.array_registers[i]
            =~= Seq::new(32, |j: int| 0u64) by {
            assert(s.array_registers@[i]@[0] == 0u64);
        }
        assert(s@.array_registers =~= fresh_model(max_memory, max_stack, max_program).array_registers);
        s
    }

    /// Reads `location` in the given mode and width (see [`read_spec`]).
    pub fn read(&self, location: u64, mode: &AddressMode, size: &Size) -> (r: Result<u64, u64>)
        requires
            self.wf(),
        ensures
            r == read_spec(self@, location, *mode, *size),
    {
        let n = size.get_size() as u64;
        match mode {
            AddressMode::Direct => Ok(location),
            AddressMode::Register => {
                if location < 9 {
                    Ok(truncate_to(self.registers[location as usize], n as usize))
                } else {
                    Err(ERR_OUT_OF_BOUNDS)
                }
            },
            AddressMode::Memory => {
                if location <= self.memory.len() as u64 && n <= self.memory.len() as u64 - location {
                    Ok(read_le(&self.memory, location as usize, n as usize))
                } else {
                    Err(ERR_OUT_OF_BOUNDS)
                }
            },
            AddressMode::Bus => Err(ERR_BUS),
        }
    }

    /// Writes `value` at `location` in the given mode and width (see [`write_spec`]);
    /// on failure nothing changes.
    pub fn write(&mut self, value: u64, location: u64, mode: &AddressMode, size: &Size) -> (r: Result<(), u64>)
        requires
            old(self).wf(),
        ensures
            final(self).wf(),
            match write_spec(old(self)@, value, location, *mode, *size) {
                Ok(m1) => r == Ok::<(), u64>(()) && final(self)@ == m1,
                Err(e) => r == Err::<(), u64>(e) && final(self)@ == old(self)@,
            },
    {
        let n = size.get_size() as u64;
        match mode {
            AddressMode::Register => {
                if location < 9 {
                    self.registers[location as usize] = truncate_to(value, n as usize);
                    Ok(())
                } else {
                    Err(ERR_OUT_OF_BOUNDS)
                }
            },
            AddressMode::Memory => {
                if location <= self.memory.len() as u64 && n <= self.memory.len() as u64 - location {
                    write_le(&mut self.memory, location as usize, value, n as usize);
                    Ok(())
                } else {
                    Err(ERR_OUT_OF_BOUNDS)
                }
            },
            _ => Err(ERR_INVALID_TARGET),
        }
    }

    fn set_register(&mut self, r: usize, v: u64)
        requires
            old(self).wf(),
            r < 9,
        ensures
            final(self).wf(),
            final(self)@ == with_register(old(self)@, r as int, v),
    {
        self.registers[r] = v;
    }

    /// Reads the operands of an instruction whose description bytes start at `ds` and whose
    /// operand bytes start at `data`.
    fn decode_operands(&self, ds: usize, data: usize, count: u8) -> (r: Option<(Vec<Operand>, usize)>)
        requires
            self.wf(),
            ds + (count + 1) / 2 <= self@.memory.len(),
            data <= self@.memory.len(),
        ensures
            match decode_operands(self@.memory, ds as int, data as int, 0, count as nat) {
                None => r is None,
                Some((ops, end)) => r matches Some((v, e)) && v@ == ops && e == end,
            },
    {
        let ghost mem = self@.memory;
        let len = self.memory.len();
        let mut ops: Vec<Operand> = Vec::new();
        let mut at = data;
        let mut i: u8 = 0;
        while i < count
            invariant
                self.wf(),
                mem == self@.memory,
                len == mem.len(),
                ds + (count + 1) / 2 <= len,
                i <= count,
                at <= len,
                decode_operands(mem, ds as int, data as int, 0, count as nat) == match decode_operands(
                    mem,
                    ds as int,
                    at as int,
                    i as nat,
                    count as nat,
                ) {
                    None => None,
                    Some((rest, end)) => Some((ops@ + rest, end)),
                },
            decreases count - i,
        {
            let d = self.memory[ds + (i / 2) as usize];
            let nib = if i % 2 == 0 {
                d & 15
            } else {
                d >> 4
            };
            let size = size_from(nib & 3);
            let mode = mode_from(nib >> 2);
            let n = size.get_size() as usize;
            if n > len - at {
                return None;
            }
            let v = read_le(&self.memory, at, n);
            let o = Operand { direct_value: v, size, address_mode: mode };
            let ghost before = ops@;
            ops.push(o);
            proof {
                let rest = decode_operands(mem, ds as int, (at + n) as int, (i + 1) as nat, count as nat);
                if let Some((r, e)) = rest {
                    assert(before + (seq![o] + r) =~= ops@ + r);
                }
            }
            at = at + n;
            i = i + 1;
        }
        assert(ops@ + seq![] =~= ops@);
        Some((ops, at))
    }

    fn operand_value(&self, o: &Operand) -> (r: Result<u64, u64>)
        requires
            self.wf(),
        ensures
            r == operand_value(self@, *o),
    {
        self.read(o.direct_value, &o.address_mode, &o.size)
    }

    fn store(&mut self, v: u64, dst: &Operand) -> (r: Result<(), u64>)
        requires
            old(self).wf(),
        ensures
            final(self).wf(),
            match store_spec(old(self)@, v, *dst) {
                Ok(m1) => r == Ok::<(), u64>(()) && final(self)@ == m1,
                Err(e) => r == Err::<(), u64>(e) && final(self)@ == old(self)@,
            },
    {
        self.write(v, dst.direct_value, &dst.address_mode, &dst.size)
    }

    /// Performs Mov, Add or Sub on decoded operands.
    fn execute(&mut self, op: u16, ops: &Vec<Operand>) -> (r: Result<(), u64>)
        requires
            old(self).wf(),
            op == 1 ==> ops@.len() == 2,
            op == 2 || op == 3 ==> ops@.len() == 3,
            op == 1 || op == 2 || op == 3,
        ensures
            final(self).wf(),
            match execute_spec(old(self)@, op, ops@) {
                Ok(m1) => r == Ok::<(), u64>(()) && final(self)@ == m1,
                Err(e) => r == Err::<(), u64>(e) && final(self)@ == old(self)@,
            },
    {
        let a = match self.operand_value(&ops[0]) {
            Err(e) => return Err(e),
            Ok(a) => a,
        };
        if op == 1 {
            return self.store(a, &ops[1]);
        }
        let b = match self.operand_value(&ops[1]) {
            Err(e) => return Err(e),
            Ok(b) => b,
        };
        if op == 2 {
            self.store(a.wrapping_add(b), &ops[2])
        } else {
            self.store(b.wrapping_sub(a), &ops[2])
        }
    }

    fn fail(&mut self, e: u64) -> (s: Step)
        requires
            old(self).wf(),
        ensures
            final(self).wf(),
            (final(self)@, s) == fail(old(self)@, e),
    {
        self.set_register(REG_RE as usize, e);
        Step::Finished(Err(e))
    }

    /// Executes the instruction at rC (see [`step_spec`]).
    pub fn step(&mut self) -> (s: Step)
        requires
            old(self).wf(),
        ensures
            final(self).wf(),
            (final(self)@, s) == step_spec(old(self)@),
    {
        let len = self.memory.len();
        let pc = self.registers[REG_RC as usize];
        if pc >= len as u64 {
            return Step::Finished(Ok(()));
        }
        let pc = pc as usize;
        if len - pc < 2 {
            return self.fail(ERR_ENDED_WRONGLY);
        }
        let op: u16 = self.memory[pc] as u16 | ((self.memory[pc + 1] as u16) << 8u16);
        assert(op == (self@.memory[pc as int] + 256 * self@.memory[pc + 1]) as u16) by {
            let (b0, b1) = (self@.memory[pc as int], self@.memory[pc + 1]);
            assert((b0 as u16 | ((b1 as u16) << 8u16)) == (b0 + 256 * b1) as u16) by (bit_vector);
        }
        if op == 0 {
            return Step::Finished(Ok(()));
        }
        let count = match count_operands(op) {
            None => return self.fail(ERR_INVALID_OP_CODE),
            Some(c) => c,
        };
        let ds = pc + 2;
        let nd = ((count + 1) / 2) as usize;
        if nd > len - ds {
            return self.fail(ERR_ENDED_WRONGLY);
        }
        let (ops, end) = match self.decode_operands(ds, ds + nd, count) {
            None => return self.fail(ERR_ENDED_WRONGLY),
            Some(p) => p,
        };
        proof {
            lemma_decode_len(self@.memory, ds as int, (ds + nd) as int, 0, count as nat);
        }
        self.set_register(REG_RC as usize, end as u64);
        match self.execute(op, &ops) {
            Err(e) => self.fail(e),
            Ok(()) => {
                let e = self.registers[REG_RE as usize];
                if e == 1 {
                    Step::Finished(Ok(()))
                } else if e != 0 {
                    Step::Finished(Err(e))
                } else {
                    Step::Continue
                }
            },
        }
    }

    /// Runs at most `fuel` instructions (see [`run_spec`]).
    fn run(&mut self, fuel: u64) -> (r: Result<(), u64>)
        requires
            old(self).wf(),
        ensures
            final(self).wf(),
            (final(self)@, r) == run_spec(old(self)@, fuel as nat),
    {
        let mut left = fuel;
        while left > 0
            invariant
                self.wf(),
                run_spec(self@, left as nat) == run_spec(old(self)@, fuel as nat),
            decreases left,
        {
            match self.step() {
                Step::Continue => {},
                Step::Finished(r) => return r,
            }
            left -= 1;
        }
        self.set_register(REG_RE as usize, ERR_OP_LIMIT);
        Err(ERR_OP_LIMIT)
    }

    /// Loads `program` into the program area and runs it (see [`set_run_spec`]).
    pub fn set_run_program(&mut self, program: Vec<u8>) -> (r: Result<(), u64>)
        requires
            old(self).wf(),
        ensures
            final(self).wf(),
            (final(self)@, r) == set_run_spec(old(self)@, program@),
    {
        let start = self.stack_memory;
        if program.len() as u64 > self.program_memory - start {
            self.set_register(REG_RE as usize, ERR_TOO_LARGE);
            return Err(ERR_TOO_LARGE);
        }
        let ghost m0 = self@;
        let n = program.len();
        let mut i: usize = 0;
        while i < n
            invariant
                self.wf(),
                n == program@.len(),
                i <= n,
                start == m0.stack_memory,
                start + n <= m0.memory.len(),
                self@ == (VmModel { memory: self@.memory, ..m0 }),
                self@.memory.len() == m0.memory.len(),
                forall|j: int|
                    0 <= j < self@.memory.len() ==> #[trigger] self@.memory[j] == if start <= j < start + i {
                        program@[j - start]
                    } else {
                        m0.memory[j]
                    },
            decreases n - i,
        {
            let at = (start + i as u64) as usize;
            self.memory.set(at, program[i]);
            i += 1;
        }
        self.set_register(REG_RC as usize, start);
        self.set_register(REG_RE as usize, 0);
        proof {
            let m1 = set_run_spec(m0, program@);
            assert(self@.memory =~= Seq::new(
                m0.memory.len(),
                |j: int|
                    if start <= j < start + program@.len() {
                        program@[j - start]
                    } else {
                        m0.memory[j]
                    },
            ));
        }
        let limit = self.op_limit;
        self.run(limit)
    }
}

} // verus!

verus! {

/// Reading back a register or memory location right after a successful write with the same
/// width gives the written value cut down to that width.
pub proof fn lemma_read_after_write(m: VmModel, value: u64, location: u64, mode: AddressMode, size: Size)
    requires
        model_wf(m),
        write_spec(m, value, location, mode, size) is Ok,
    ensures
        read_spec(write_spec(m, value, location, mode, size).unwrap(), location, mode, size)
            == Ok::<u64, u64>(truncate(value, size.spec_size())),
{
    let n = size.spec_size();
    match mode {
        AddressMode::Register => {
            let t = truncate(value, n);
            assert(truncate(t, n) == t);
        },
        AddressMode::Memory => {
            lemma_le_roundtrip(m.memory, location as int, value, n);
        },
        _ => {},
    }
}

/// Whenever a run ends with an error, that error code is what rE holds afterwards.
pub proof fn lemma_run_error_in_register(m: VmModel, fuel: nat)
    requires
        model_wf(m),
    ensures
        run_spec(m, fuel).1 matches Err(e) ==> reg(run_spec(m, fuel).0, REG_RE as int) == e,
    decreases fuel,
{
    if fuel > 0 {
        let (m1, s) = step_spec(m);
        if s == Step::Continue {
            lemma_step_wf(m);
            lemma_run_error_in_register(m1, (fuel - 1) as nat);
        }
    }
}

/// A step keeps the machine's layout.
pub proof fn lemma_step_wf(m: VmModel)
    requires
        model_wf(m),
    ensures
        model_wf(step_spec(m).0),
{
    let pc = reg(m, REG_RC as int);
    let len = m.memory.len();
    if pc < len && pc + 2 <= len {
        let op = (m.memory[pc as int] + 256 * m.memory[pc + 1]) as u16;
        if op != 0 {
            if let Some(c) = operand_count(op) {
                let ds = pc + 2;
                let nd = (c + 1) / 2;
                if ds + nd <= len {
                    if let Some((ops, end)) = decode_operands(m.memory, ds, ds + nd, 0, c) {
                        lemma_decode_len(m.memory, ds, ds + nd, 0, c);
                    }
                }
            }
        }
    }
}

/// Whenever loading and running a program ends with an error, rE holds that error code.
pub proof fn lemma_set_run_error_in_register(m: VmModel, program: Seq<u8>)
    requires
        model_wf(m),
    ensures
        set_run_spec(m, program).1 matches Err(e) ==> reg(set_run_spec(m, program).0, REG_RE as int)
            == e,
{
    if program.len() <= m.program_memory - m.stack_memory {
        let start = m.stack_memory as int;
        let mem = Seq::new(
            m.memory.len(),
            |i: int|
                if start <= i < start + program.len() {
                    program[i - start]
                } else {
                    m.memory[i]
                },
        );
        let m1 = VmModel {
            memory: mem,
            registers: m.registers.update(REG_RC as int, m.stack_memory).update(REG_RE as int, 0),
            ..m
        };
        lemma_run_error_in_register(m1, m.op_limit as nat);
    }
}

/// A 1 in rE after an instruction ends the program successfully; any other nonzero value
/// ends it with that value as the error; reaching the end of memory ends it successfully.
pub proof fn lemma_error_register_protocol(m: VmModel)
    ensures
        reg(m, REG_RE as int) == 1 ==> post_spec(m).1 == Step::Finished(Ok(())),
        reg(m, REG_RE as int) > 1 ==> post_spec(m).1 == Step::Finished(Err(reg(m, REG_RE as int))),
        reg(m, REG_RC as int) >= m.memory.len() ==> step_spec(m) == (m, Step::Finished(Ok(()))),
{
}

/// The instructions' effects: Mov (1) stores the first operand's value a into the second
/// operand; Add (2) stores a + b and Sub (3) stores b - a, b being the second operand's
/// value, both modulo 2^64, into the third.
pub proof fn lemma_instruction_values(m: VmModel, op: u16, ops: Seq<Operand>)
    requires
        ops.len() >= 3,
        1 <= op <= 3,
        operand_value(m, ops[0]) is Ok,
        operand_value(m, ops[1]) is Ok,
    ensures
        ({
            let a = operand_value(m, ops[0])->Ok_0;
            let b = operand_value(m, ops[1])->Ok_0;
            &&& op == 1 ==> execute_spec(m, op, ops) == store_spec(m, a, ops[1])
            &&& op == 2 ==> execute_spec(m, op, ops)
                == store_spec(m, ((a + b) % 0x1_0000_0000_0000_0000) as u64, ops[2])
            &&& op == 3 ==> execute_spec(m, op, ops)
                == store_spec(m, ((b - a + 0x1_0000_0000_0000_0000) % 0x1_0000_0000_0000_0000) as u64, ops[2])
        }),
{
    let a = operand_value(m, ops[0])->Ok_0;
    let b = operand_value(m, ops[1])->Ok_0;
    assert(a.wrapping_add(b) == ((a + b) % 0x1_0000_0000_0000_0000) as u64);
    assert(b.wrapping_sub(a) == ((b - a + 0x1_0000_0000_0000_0000) % 0x1_0000_0000_0000_0000) as u64);
}

} // verus!
