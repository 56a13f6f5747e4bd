use vstd::prelude::*;
use crate::vm_v4::object::Object;
use crate::vm_v4::vm_state::{VMState, VmResult, VmEmpty, ERR_NO_OP_CODE, wf, exec_spec, known_op, op_count};

verus! {

/// Width of an operand.
#[derive(Debug, Clone, Copy, PartialEq, Eq, Structural)]
pub enum Size {
    Byte,
    Word,
    Int,
    Long,
}

impl Size {
    /// Number of bytes covered by this width.
    pub open spec fn spec_size(&self) -> nat {
        match self {
            Size::Byte => 1,
            Size::Word => 2,
            Size::Int => 4,
            Size::Long => 8,
        }
    }

    pub fn get_size(&self) -> (n: u8)
        ensures
            n == self.spec_size(),
    {
        match self {
            Size::Byte => 1,
            Size::Word => 2,
            Size::Int => 4,
            Size::Long => 8,
        }
    }

    /// The width a two-bit size field names: 0 byte, 1 word, 2 int, 3 long, so that each
    /// of the four widths a direct operand may hold has a code; anything else is a byte.
    pub open spec fn spec_to_size(size: u8) -> Size {
        if size == 1 {
            Size::Word
        } else if size == 2 {
            Size::Int
        } else if size == 3 {
            Size::Long
        } else {
            Size::Byte
        }
    }

    pub fn to_size(size: u8) -> (s: Self)
        ensures
            s == Self::spec_to_size(size),
    {
        match size {
            0 => Size::Byte,
            1 => Size::Word,
            2 => Size::Int,
            3 => Size::Long,
            _ => Size::Byte,
        }
    }
}

/// Where an operand's value is read or written.
#[derive(Debug, Clone, Copy, PartialEq, Eq, Structural)]
pub enum AddressMode {
    Direct,
    Stack,
    Memory,
    Bus,
}

impl AddressMode {
    /// The mode a two-bit field names: 0 direct, 1 stack, 2 memory, 3 bus; anything else
    /// is memory.
    pub open spec fn spec_to_mode(size: u8) -> AddressMode {
        if size == 0 {
            AddressMode::Direct
        } else if size == 1 {
            AddressMode::Stack
        } else if size == 3 {
            AddressMode::Bus
        } else {
            AddressMode::Memory
        }
    }

    pub fn to_mode(size: u8) -> (m: Self)
        ensures
            m == Self::spec_to_mode(size),
    {
        match size {
            0 => AddressMode::Direct,
            1 => AddressMode::Stack,
            2 => AddressMode::Memory,
            3 => AddressMode::Bus,
            _ => AddressMode::Memory,
        }
    }
}

/// `v` cut to its first `n` bytes, or padded with zeros up to `n` bytes.
pub open spec fn trimmed(v: Seq<u8>, n: nat) -> Seq<u8> {
    Seq::new(n, |i: int| if i < v.len() { v[i] } else { 0u8 })
}

/// A copy of `vec` cut down, or padded with zeros, to `bytes` bytes.
pub fn trim_value(vec: &Vec<u8>, bytes: u8) -> (r: Vec<u8>)
    ensures
        r@ == trimmed(vec@, bytes as nat),
{
    let mut copy: Vec<u8> = Vec::new();
    let mut i: usize = 0;
    while i < bytes as usize
        invariant
            i <= bytes,
            copy@ == trimmed(vec@, i as nat),
        decreases bytes - i,
    {
        if i < vec.len() {
            copy.push(vec[i]);
        } else {
            copy.push(0);
        }
        i += 1;
        assert(copy@ =~= trimmed(vec@, i as nat));
    }
    copy
}


/// An operand as read from the bytecode: its raw value, the value it stands for (not
/// filled in here), its width and address mode.
#[derive(Debug)]
pub struct Operand {
    pub direct_value: u64,
    pub true_value: Option<Object>,
    pub size: Size,
    pub address_mode: AddressMode,
}

/// An instruction: its name, how many operands it takes, and the opcode it runs.
pub struct OpCode {
    pub name: &'static str,
    pub count: u8,
    pub code: u16,
}

/// The name of the instruction `code`.
pub open spec fn op_name(code: u16) -> &'static str {
    if code == 0 {
        "End"
    } else if code == 1 {
        "New"
    } else if code == 2 {
        "PshPrm"
    } else if code == 3 {
        "Dup"
    } else if code == 9 {
        "Add"
    } else if code == 10 {
        "Sub"
    } else if code == 11 {
        "JmpUnc"
    } else if code == 12 {
        "CmpEq"
    } else if code == 13 {
        "CmpLs"
    } else if code == 14 {
        "CmpGr"
    } else if code == 15 {
        "CmpNe"
    } else if code == 16 {
        "CmpLsEq"
    } else if code == 17 {
        "CmpGrEq"
    } else if code == 18 {
        "JmpCnd"
    } else if code == 19 {
        "Cal"
    } else if code == 20 {
        "Ret"
    } else {
        "RetVal"
    }
}

/// The instruction an opcode names: End 0, New 1, PshPrm 2, Dup 3, Add 9, Sub 10,
/// JmpUnc 11, CmpEq 12, CmpLs 13, CmpGr 14, CmpNe 15, CmpLsEq 16, CmpGrEq 17, JmpCnd 18,
/// Cal 19, Ret 20, RetVal 21; any other opcode names none.
pub fn get_opcode(opcode: u16) -> (r: VmResult<OpCode>)
    ensures
        match r {
            Ok(o) => known_op(opcode) && o.code == opcode && o.count == op_count(opcode)
                && o.name == op_name(opcode),
            Err(e) => !known_op(opcode) && e == (ERR_NO_OP_CODE, "bytecode::get_opcode"),
        },
{
    match opcode {
        0 => Ok(OpCode { name: "End", count: 0, code: 0 }),
        1 => Ok(OpCode { name: "New", count: 1, code: 1 }),
        2 => Ok(OpCode { name: "PshPrm", count: 1, code: 2 }),
        3 => Ok(OpCode { name: "Dup", count: 0, code: 3 }),
        9 => Ok(OpCode { name: "Add", count: 0, code: 9 }),
        10 => Ok(OpCode { name: "Sub", count: 0, code: 10 }),
        11 => Ok(OpCode { name: "JmpUnc", count: 1, code: 11 }),
        12 => Ok(OpCode { name: "CmpEq", count: 0, code: 12 }),
        13 => Ok(OpCode { name: "CmpLs", count: 0, code: 13 }),
        14 => Ok(OpCode { name: "CmpGr", count: 0, code: 14 }),
        15 => Ok(OpCode { name: "CmpNe", count: 0, code: 15 }),
        16 => Ok(OpCode { name: "CmpLsEq", count: 0, code: 16 }),
        17 => Ok(OpCode { name: "CmpGrEq", count: 0, code: 17 }),
        18 => Ok(OpCode { name: "JmpCnd", count: 2, code: 18 }),
        19 => Ok(OpCode { name: "Cal", count: 1, code: 19 }),
        20 => Ok(OpCode { name: "Ret", count: 0, code: 20 }),
        21 => Ok(OpCode { name: "RetVal", count: 1, code: 21 }),
        _ => Err((ERR_NO_OP_CODE, "bytecode::get_opcode")),
    }
}


impl OpCode {
    /// Runs this instruction on the machine with the given operands (see [`exec_spec`]).
    pub fn call(&self, vm: &mut VMState, operands: Vec<Operand>) -> (r: VmEmpty)
        requires
            wf(old(vm)@),
            exec_spec(old(vm)@, self.code, operands@) is Some,
        ensures
            wf(final(vm)@),
            (final(vm)@, r) == exec_spec(old(vm)@, self.code, operands@).unwrap(),
    {
        match vm.execute(self.code, &operands) {
            Some(r) => r,
            None => Ok(()),
        }
    }
}

} // verus!
