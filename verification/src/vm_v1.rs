use vstd::prelude::*;

verus! {

/// Mathematical picture of a [`Memory`]: 256 memory bytes and 6 byte registers.
pub struct MemModel {
    pub memory: Seq<u8>,
    pub register: Seq<u8>,
}

/// The first machine: 256 bytes of memory and six byte-wide registers.
#[derive(PartialEq, Debug)]
pub struct Memory {
    memory: [u8; 256],
    register: [u8; 6],
}

impl View for Memory {
    type V = MemModel;

    closed spec fn view(&self) -> MemModel {
        MemModel { memory: self.memory@, register: self.register@ }
    }
}

impl Default for Memory {
    fn default() -> (m: Self)
        ensures
            m@.memory == Seq::new(256, |i: int| 0u8),
            m@.register == Seq::new(6, |i: int| 0u8),
    {
        let m = Memory { memory: [0;256], register: [0;6] };
        assert(m@.memory =~= Seq::new(256, |i: int| 0u8));
        assert(m@.register =~= Seq::new(6, |i: int| 0u8));
        m
    }
}

impl Memory {
    fn get_memory(&self, slot: usize) -> (b: u8)
        requires
            slot < 256,
        ensures
            b == self@.memory[slot as int],
    {
        self.memory[slot]
    }

    fn get_register(&self, register: usize) -> (b: u8)
        requires
            register < 6,
        ensures
            b == self@.register[register as int],
    {
        self.register[register]
    }

    fn write_memory(&mut self, slot: usize, value: u8)
        requires
            slot < 256,
        ensures
            final(self)@ == (MemModel { memory: old(self)@.memory.update(slot as int, value), ..old(self)@ }),
    {
        self.memory[slot] = value;
    }

    fn write_registor(&mut self, register: usize, value: u8)
        requires
            register < 6,
        ensures
            final(self)@ == (MemModel { register: old(self)@.register.update(register as int, value), ..old(self)@ }),
    {
        self.register[register] = value;
    }
}

/// The place an instruction's first operand names: memory (mode 0) or a register (mode 2).
/// `Some(Err(()))` for any other mode; `None` when the index is outside the memory or
/// the registers.
pub open spec fn read_place(m: MemModel, mode: u8, x: u64) -> Option<Result<u8, ()>> {
    if mode == 0 {
        if (x as usize) < 256 { Some(Ok(m.memory[x as usize as int])) } else { None }
    } else if mode == 2 {
        if (x as usize) < 6 { Some(Ok(m.register[x as usize as int])) } else { None }
    } else {
        Some(Err(()))
    }
}

/// `m` with the place of mode `mode` (0 memory, 2 register) at `x` set to `v`.
pub open spec fn write_place(m: MemModel, mode: u8, x: u64, v: u8) -> MemModel {
    if mode == 0 {
        MemModel { memory: m.memory.update(x as usize as int, v), ..m }
    } else {
        MemModel { register: m.register.update(x as usize as int, v), ..m }
    }
}

/// One instruction: the second operand's value is a memory byte (mode 0), its own low byte
/// (mode 1) or a register (mode 2); opcode 1 moves it into the place the first operand names,
/// 2 adds it to that place and 3 subtracts it from it. The result's flag is false for an
/// unknown opcode or mode. `None` where the instruction cannot complete (an index outside
/// the memory or registers, a byte sum above 255 or a difference below 0).
pub open spec fn use_op_code_spec(m: MemModel, op_code: u8, x1: u64, x2: u64, x1_mode: u8, x2_mode: u8) -> Option<(MemModel, bool)> {
    let v2: Option<Option<u8>> = if x2_mode == 0 {
        if (x2 as usize) < 256 { Some(Some(m.memory[x2 as usize as int])) } else { None }
    } else if x2_mode == 1 {
        Some(Some(x2 as u8))
    } else if x2_mode == 2 {
        if (x2 as usize) < 6 { Some(Some(m.register[x2 as usize as int])) } else { None }
    } else {
        Some(None)
    };
    match v2 {
        None => None,
        Some(None) => Some((m, false)),
        Some(Some(v)) => if op_code == 1 {
            if x1_mode == 0 || x1_mode == 2 {
                match read_place(m, x1_mode, x1) {
                    None => None,
                    _ => Some((write_place(m, x1_mode, x1, v), true)),
                }
            } else {
                Some((m, false))
            }
        } else if op_code == 2 || op_code == 3 {
            match read_place(m, x1_mode, x1) {
                None => None,
                Some(Err(())) => Some((m, false)),
                Some(Ok(old)) => if op_code == 2 {
                    if old + v <= 255 { Some((write_place(m, x1_mode, x1, (old + v) as u8), true)) } else { None }
                } else {
                    if old >= v { Some((write_place(m, x1_mode, x1, (old - v) as u8), true)) } else { None }
                },
            }
        } else {
            Some((m, false))
        },
    }
}

/// The state of the byte-by-byte reader in [`run_program`].
#[derive(Debug, Clone, Copy, PartialEq, Eq, Structural)]
pub struct Reader {
    pub op_code: u8,
    pub just_checked_op: bool,
    pub x1_address_mode: u8,
    pub x2_address_mode: u8,
    pub x1_size: u8,
    pub x2_size: u8,
    pub x1_value: u64,
    pub x2_value: u64,
    pub x1_byte_count: u8,
    pub x2_byte_count: u8,
}

/// The reader before the first byte.
pub open spec fn initial_reader() -> Reader {
    Reader {
        op_code: 0,
        just_checked_op: false,
        x1_address_mode: 1,
        x2_address_mode: 1,
        x1_size: 1,
        x2_size: 1,
        x1_value: 0,
        x2_value: 0,
        x1_byte_count: 0,
        x2_byte_count: 0,
    }
}

/// What feeding one byte to the reader leaves.
pub enum Fed {
    /// Reading goes on.
    Go(Reader, MemModel),
    /// An instruction failed; the run returns false.
    Stop(MemModel),
}

/// Feeding byte `val` at position `i`: a position that is a multiple of the current
/// instruction length (x1 size + x2 size + 2) holds an opcode; the byte after an opcode
/// describes the operands (bits 0-1 and 2-3 their address modes, 4-5 and 6-7 their sizes);
/// further bytes fill x1's then x2's value, each byte ORed in shifted left by its index;
/// once both are full the instruction runs and the reader is reset.
pub open spec fn feed_spec(r: Reader, m: MemModel, i: nat, val: u8) -> Option<Fed> {
    if i % ((r.x1_size + r.x2_size + 2) as nat) == 0 {
        Some(Fed::Go(Reader { op_code: val, just_checked_op: true, ..r }, m))
    } else if r.just_checked_op {
        Some(
            Fed::Go(
                Reader {
                    just_checked_op: false,
                    x1_address_mode: val & 3,
                    x2_address_mode: (val & 12) >> 2u8,
                    x1_size: (val & 48) >> 4u8,
                    x2_size: (val & 192) >> 6u8,
                    ..r
                },
                m,
            ),
        )
    } else if r.x1_byte_count <= r.x1_size && r.x2_byte_count <= r.x2_size {
        let r1 = if r.x1_byte_count < r.x1_size {
            Reader {
                x1_value: r.x1_value | ((val as u64) << (r.x1_byte_count as u64)),
                x1_byte_count: (r.x1_byte_count + 1) as u8,
                ..r
            }
        } else if r.x2_byte_count < r.x2_size {
            Reader {
                x2_value: r.x2_value | ((val as u64) << (r.x2_byte_count as u64)),
                x2_byte_count: (r.x2_byte_count + 1) as u8,
                ..r
            }
        } else {
            r
        };
        if r1.x1_byte_count == r1.x1_size && r1.x2_byte_count == r1.x2_size {
            match use_op_code_spec(m, r1.op_code, r1.x1_value, r1.x2_value, r1.x1_address_mode, r1.x2_address_mode) {
                None => None,
                Some((m1, false)) => Some(Fed::Stop(m1)),
                Some((m1, true)) => Some(
                    Fed::Go(
                        Reader { x1_value: 0, x2_value: 0, x1_byte_count: 0, x2_byte_count: 0, ..r1 },
                        m1,
                    ),
                ),
            }
        } else {
            Some(Fed::Go(r1, m))
        }
    } else {
        Some(Fed::Go(r, m))
    }
}

/// Feeding the program's bytes from position `i` on.
pub open spec fn run_from(program: Seq<u8>, i: nat, r: Reader, m: MemModel) -> Option<(MemModel, bool)>
    decreases program.len() - i,
{
    if i >= program.len() {
        Some((m, true))
    } else {
        match feed_spec(r, m, i, program[i as int]) {
            None => None,
            Some(Fed::Stop(m1)) => Some((m1, false)),
            Some(Fed::Go(r1, m1)) => run_from(program, i + 1, r1, m1),
        }
    }
}

/// Running a program: one of odd length or shorter than 2 bytes is refused (false);
/// otherwise its bytes are fed from the start (see [`feed_spec`]) and the result says
/// whether every instruction succeeded. `None` where an instruction cannot complete.
pub open spec fn run_program_spec(program: Seq<u8>, m: MemModel) -> Option<(MemModel, bool)> {
    if program.len() % 2 != 0 || program.len() < 2 {
        Some((m, false))
    } else {
        run_from(program, 0, initial_reader(), m)
    }
}

/// Runs one instruction (see [`use_op_code_spec`]); `None`, with the memory untouched,
/// where it cannot complete.
fn use_op_code(mem: &mut Memory, op_code: u8, x1: u64, x2: u64, x1_address_mode: u8, x2_address_mode: u8) -> (r: Option<bool>)
    ensures
        match use_op_code_spec(old(mem)@, op_code, x1, x2, x1_address_mode, x2_address_mode) {
            None => r is None && final(mem)@ == old(mem)@,
            Some((m, ok)) => r == Some(ok) && final(mem)@ == m,
        },
{
    let x2_value = match x2_address_mode {
        0 => {
            if (x2 as usize) >= 256 {
                return None;
            }
            mem.get_memory(x2 as usize)
        },
        1 => x2 as u8,
        2 => {
            if (x2 as usize) >= 6 {
                return None;
            }
            mem.get_register(x2 as usize)
        },
        _ => return Some(false),
    };
    if op_code != 1 && op_code != 2 && op_code != 3 {
        return Some(false);
    }
    if x1_address_mode != 0 && x1_address_mode != 2 {
        return Some(false);
    }
    if (x1_address_mode == 0 && (x1 as usize) >= 256) || (x1_address_mode == 2 && (x1 as usize) >= 6) {
        return None;
    }
    let v = if op_code == 1 {
        x2_value
    } else {
        let old = if x1_address_mode == 0 {
            mem.get_memory(x1 as usize)
        } else {
            mem.get_register(x1 as usize)
        };
        if op_code == 2 {
            if old as u16 + x2_value as u16 > 255 {
                return None;
            }
            old + x2_value
        } else {
            if old < x2_value {
                return None;
            }
            old - x2_value
        }
    };
    if x1_address_mode == 0 {
        mem.write_memory(x1 as usize, v);
    } else {
        mem.write_registor(x1 as usize, v);
    }
    Some(true)
}

/// Runs a program on the first machine (see [`run_program_spec`]); the result says whether
/// the program was well formed and every instruction succeeded.
pub fn run_program(program: Vec<u8>, mem: &mut Memory) -> (ok: bool)
    requires
        run_program_spec(program@, old(mem)@) is Some,
    ensures
        (final(mem)@, ok) == run_program_spec(program@, old(mem)@).unwrap(),
{
    match try_run_program(program, mem) {
        Some(ok) => ok,
        None => false,
    }
}

/// Runs a program as [`run_program`] does, checking each instruction first: `None` where
/// an instruction cannot complete (an index outside the memory or registers, a byte sum
/// above 255 or a difference below 0), the run stopping there.
pub fn try_run_program(program: Vec<u8>, mem: &mut Memory) -> (r: Option<bool>)
    ensures
        match run_program_spec(program@, old(mem)@) {
            None => r is None,
            Some((m, ok)) => r == Some(ok) && final(mem)@ == m,
        },
{
    if program.len() % 2 != 0 || program.len() < 2 {
        return Some(false);
    }
    let mut op_code: u8 = 0;
    let mut just_checked_op = false;

    let mut x1_address_mode: u8 = 1;
    let mut x2_address_mode: u8 = 1;

    let mut x1_size: u8 = 1;
    let mut x2_size: u8 = 1;

    let mut x1_value: u64 = 0;
    let mut x2_value: u64 = 0;
    let mut x1_byte_count: u8 = 0;
    let mut x2_byte_count: u8 = 0;

    let ghost m0 = mem@;
    let mut i: usize = 0;
    while i < program.len()
        invariant
            i <= program@.len(),
            x1_size <= 3,
            x2_size <= 3,
            x1_byte_count <= 4,
            x2_byte_count <= 4,
            run_from(
                program@,
                i as nat,
                Reader {
                    op_code,
                    just_checked_op,
                    x1_address_mode,
                    x2_address_mode,
                    x1_size,
                    x2_size,
                    x1_value,
                    x2_value,
                    x1_byte_count,
                    x2_byte_count,
                },
                mem@,
            ) == run_program_spec(program@, m0),
            m0 == old(mem)@,
        decreases program@.len() - i,
    {
        let val: u8 = program[i];
        let ghost r0 = Reader {
            op_code,
            just_checked_op,
            x1_address_mode,
            x2_address_mode,
            x1_size,
            x2_size,
            x1_value,
            x2_value,
            x1_byte_count,
            x2_byte_count,
        };
        let ghost mem0 = mem@;
        assert(run_from(program@, i as nat, r0, mem0) == match feed_spec(r0, mem0, i as nat, val) {
            None => None,
            Some(Fed::Stop(m1)) => Some((m1, false)),
            Some(Fed::Go(r1, m1)) => run_from(program@, i as nat + 1, r1, m1),
        });
        if i % (x1_size + x2_size + 2) as usize == 0 {
            op_code = val;
            just_checked_op = true;
        } else if just_checked_op {
            just_checked_op = false;
            x1_address_mode = val & 0b00000011;
            x2_address_mode = (val & 0b00001100) >> 2;
            x1_size = (val & 0b00110000) >> 4;
            x2_size = (val & 0b11000000) >> 6;
            assert((val & 48u8) >> 4u8 <= 3 && (val & 192u8) >> 6u8 <= 3) by (bit_vector);
        } else if x1_byte_count <= x1_size && x2_byte_count <= x2_size {
            if x1_byte_count < x1_size {
                x1_value = x1_value | ((val as u64) << (x1_byte_count as u64));
                x1_byte_count += 1;
            } else if x2_byte_count < x2_size {
                x2_value = x2_value | ((val as u64) << (x2_byte_count as u64));
                x2_byte_count += 1;
            }
            if x1_byte_count == x1_size && x2_byte_count == x2_size {
                match use_op_code(mem, op_code, x1_value, x2_value, x1_address_mode, x2_address_mode) {
                    None => return None,
                    Some(false) => return Some(false),
                    Some(true) => {},
                }
                x1_value = 0;
                x2_value = 0;
                x1_byte_count = 0;
                x2_byte_count = 0;
            }
        }
        i += 1;
    }
    Some(true)
}

/// What one instruction does, given a first operand naming a memory byte (mode 0) or a
/// register (mode 2) and a second operand whose value is the memory byte it names (mode 0),
/// its own low byte (mode 1) or the register it names (mode 2): Mov (1) puts that value in
/// the first operand's place, Add (2) adds it there and Sub (3) subtracts it, each then
/// reporting success; nothing else changes.
pub proof fn lemma_instruction_effects(m: MemModel, op_code: u8, x1: u64, x2: u64, x1_mode: u8, x2_mode: u8)
    requires
        m.memory.len() == 256,
        m.register.len() == 6,
        1 <= op_code <= 3,
        x1_mode == 0 && x1 < 256 || x1_mode == 2 && x1 < 6,
        x2_mode == 0 && x2 < 256 || x2_mode == 1 || x2_mode == 2 && x2 < 6,
    ensures
        ({
            let v: u8 = if x2_mode == 0 {
                m.memory[x2 as int]
            } else if x2_mode == 1 {
                (x2 % 256) as u8
            } else {
                m.register[x2 as int]
            };
            let before: u8 = if x1_mode == 0 { m.memory[x1 as int] } else { m.register[x1 as int] };
            let after: int = if op_code == 1 { v as int } else if op_code == 2 { before + v } else { before - v };
            0 <= after <= 255 ==> (use_op_code_spec(m, op_code, x1, x2, x1_mode, x2_mode) matches Some((m2, true)) && {
                &&& m2.memory.len() == 256
                &&& m2.register.len() == 6
                &&& (if x1_mode == 0 { m2.memory[x1 as int] } else { m2.register[x1 as int] }) == after
                &&& forall|k: int| 0 <= k < 256 && !(x1_mode == 0 && k == x1) ==> m2.memory[k] == m.memory[k]
                &&& forall|k: int| 0 <= k < 6 && !(x1_mode == 2 && k == x1) ==> m2.register[k] == m.register[k]
            })
        }),
{
    assert((x2 as u8) == (x2 % 256) as u8) by (bit_vector);
    assert(x1 < 256 ==> (x1 as usize) as int == x1);
    assert(x2 < 256 ==> (x2 as usize) as int == x2);
}

/// A program of one instruction with one-byte operands (opcode, description byte, first
/// operand, second operand) runs exactly that instruction: the run gives what the
/// instruction gives, with the address modes taken from bits 0-1 and 2-3 of the
/// description byte.
pub proof fn lemma_single_instruction_run(m: MemModel, op: u8, desc: u8, a: u8, b: u8)
    requires
        desc & 0xF0 == 0x50,
    ensures
        run_program_spec(seq![op, desc, a, b], m) == use_op_code_spec(m, op, a as u64, b as u64, desc & 3, (desc & 12) >> 2u8),
{
    let p = seq![op, desc, a, b];
    let r0 = initial_reader();
    assert((desc & 48) >> 4u8 == 1 && (desc & 192) >> 6u8 == 1) by (bit_vector)
        requires desc & 0xF0 == 0x50;
    assert((0u64 | ((a as u64) << (0u8 as u64))) == a as u64) by (bit_vector);
    assert((0u64 | ((b as u64) << (0u8 as u64))) == b as u64) by (bit_vector);
    let r1 = Reader { op_code: op, just_checked_op: true, ..r0 };
    assert(feed_spec(r0, m, 0, op) == Some(Fed::Go(r1, m)));
    assert(run_from(p, 0, r0, m) == run_from(p, 1, r1, m));
    let r2 = Reader {
        just_checked_op: false,
        x1_address_mode: desc & 3,
        x2_address_mode: (desc & 12) >> 2u8,
        x1_size: 1,
        x2_size: 1,
        ..r1
    };
    assert(feed_spec(r1, m, 1, desc) == Some(Fed::Go(r2, m)));
    assert(run_from(p, 1, r1, m) == run_from(p, 2, r2, m));
    let r3 = Reader { x1_value: a as u64, x1_byte_count: 1, ..r2 };
    assert(r2.x1_value == 0u64 && r2.x1_byte_count == 0u8);
    assert((r2.x1_value | ((a as u64) << (r2.x1_byte_count as u64))) == a as u64);
    assert(2int % 4int == 2);
    assert(feed_spec(r2, m, 2, a) == Some(Fed::Go(r3, m)));
    assert(run_from(p, 2, r2, m) == run_from(p, 3, r3, m));
    let r4 = Reader { x2_value: b as u64, x2_byte_count: 1, ..r3 };
    assert(r3.x2_value == 0u64 && r3.x2_byte_count == 0u8);
    assert((r3.x2_value | ((b as u64) << (r3.x2_byte_count as u64))) == b as u64);
    assert(3int % 4int == 3);
    assert(feed_spec(r3, m, 3, b) == match use_op_code_spec(m, op, a as u64, b as u64, desc & 3, (desc & 12) >> 2u8) {
        None => None,
        Some((m1, false)) => Some(Fed::Stop(m1)),
        Some((m1, true)) => Some(Fed::Go(Reader { x1_value: 0, x2_value: 0, x1_byte_count: 0, x2_byte_count: 0, ..r4 }, m1)),
    });
    assert(run_from(p, 3, r3, m) == match use_op_code_spec(m, op, a as u64, b as u64, desc & 3, (desc & 12) >> 2u8) {
        None => None,
        Some((m1, false)) => Some((m1, false)),
        Some((m1, true)) => run_from(p, 4, Reader { x1_value: 0, x2_value: 0, x1_byte_count: 0, x2_byte_count: 0, ..r4 }, m1),
    });
}

} // verus!
