use vstd::prelude::*;
use crate::vm_v4::object::{PassBy, TypeModel, ObjectType, ObjModel, Object, zeros, be32_at, parse_type, string_from_utf8};
use std::collections::VecDeque;
use crate::vm_v4::function::Function;
use crate::vm_v4::bytecode::{Size, AddressMode, Operand, trimmed};
use crate::le_bytes::{le_read, le_byte, read_le, le_store, truncate, lemma_le_roundtrip, pow256};
use crate::vm_v4::bytecode::{trim_value, get_opcode};

verus! {

pub const PRIM_BYTE: u32 = 0;
pub const PRIM_WORD: u32 = 1;
pub const PRIM_INT: u32 = 2;
pub const PRIM_LONG: u32 = 3;
/// Type of the record a call leaves on the stack.
pub const PRIM_FN_RT: u32 = 4;

pub const ERR_FAILED_END: u32 = 4294967295;
/// The machine cannot allocate more memory.
pub const ERR_OOM: u32 = 1;
/// A type cannot be found.
pub const ERR_NO_TYPE: u32 = 2;
/// No object is held at an index.
pub const ERR_NO_OBJECT: u32 = 3;
/// Two types that should match do not.
pub const ERR_TYPE_MISH: u32 = 4;
/// An object cannot be written.
pub const ERR_OBJECT_WRITE: u32 = 5;
/// The stack is empty.
pub const ERR_STACK_EMPTY: u32 = 6;
/// The program cannot be read.
pub const ERR_PROGRAM_READ: u32 = 7;
/// An operand is missing.
pub const ERR_OPERAND: u32 = 8;
/// An opcode names no instruction.
pub const ERR_NO_OP_CODE: u32 = 9;
/// A program did not end correctly.
pub const ERR_PROGRAM_SHUT: u32 = 10;
/// A list or struct is read out of bounds.
pub const ERR_OUT_OF_BOUND: u32 = 11;

/// An error code with the place that raised it.
pub type VmError = (u32, &'static str);
pub type VmResult<X> = Result<X, VmError>;
pub type VmEmpty = VmResult<()>;

/// Mathematical picture of a [`VMState`].
pub struct VmModel {
    pub types: Seq<TypeModel>,
    pub objects: Seq<Option<ObjModel>>,
    pub program: Seq<Function>,
    pub max_memory: u64,
    pub allocated_size: u64,
    pub stack: Seq<u32>,
    pub base_pointer: u64,
    pub program_pointer: u64,
    pub function_pointer: u64,
    pub running: bool,
    pub err_code: u32,
    pub jump_trueth: bool,
}

/// An object machine: a list of types, slots holding reference-counted objects, the
/// functions of a program, a stack of object indices and the registers that run it.
#[derive(Debug)]
pub struct VMState {
    struct_list: Vec<ObjectType>,
    objects: Vec<Option<Object>>,
    pub program: Vec<Function>,
    max_memory: u64,
    allocated_size: u64,
    pub stack: Vec<u32>,
    pub base_pointer: u64,
    pub program_pointer: u64,
    pub function_pointer: u64,
    pub running: bool,
    pub err_code: u32,
    pub jump_trueth: bool,
}

pub open spec fn opt_view(o: Option<Object>) -> Option<ObjModel> {
    match o {
        Some(x) => Some(x@),
        None => None,
    }
}

impl View for VMState {
    type V = VmModel;

    closed spec fn view(&self) -> VmModel {
        VmModel {
            types: self.struct_list@.map_values(|t: ObjectType| t@),
            objects: self.objects@.map_values(|o: Option<Object>| opt_view(o)),
            program: self.program@,
            max_memory: self.max_memory,
            allocated_size: self.allocated_size,
            stack: self.stack@,
            base_pointer: self.base_pointer,
            program_pointer: self.program_pointer,
            function_pointer: self.function_pointer,
            running: self.running,
            err_code: self.err_code,
            jump_trueth: self.jump_trueth,
        }
    }
}

/// The six types every machine starts with: byte, word, int and long of 1, 2, 4 and 8
/// bytes, the 24-byte call record, and the linked-list cell of three ints.
pub open spec fn default_type(i: int) -> TypeModel {
    if i == 0 {
        TypeModel { size: 1, types: Seq::empty(), pass_by: PassBy::Value, id: "byte"@ }
    } else if i == 1 {
        TypeModel { size: 2, types: Seq::empty(), pass_by: PassBy::Value, id: "word"@ }
    } else if i == 2 {
        TypeModel { size: 4, types: Seq::empty(), pass_by: PassBy::Value, id: "int"@ }
    } else if i == 3 {
        TypeModel { size: 8, types: Seq::empty(), pass_by: PassBy::Value, id: "long"@ }
    } else if i == 4 {
        TypeModel { size: 24, types: Seq::empty(), pass_by: PassBy::Value, id: "function_return"@ }
    } else {
        TypeModel { size: 12, types: seq![2u32, 2u32, 2u32], pass_by: PassBy::Reference, id: "linked_list"@ }
    }
}

/// Whether some type in the list has the name `id`.
pub open spec fn has_id(types: Seq<TypeModel>, id: Seq<char>) -> bool {
    exists|i: int| 0 <= i < types.len() && types[i].id == id
}

/// No two types share a name.
pub open spec fn ids_unique(types: Seq<TypeModel>) -> bool {
    forall|i: int, j: int| 0 <= i < types.len() && 0 <= j < types.len() && i != j
        ==> types[i].id != types[j].id
}

/// Every nested type names a type of the list.
pub open spec fn nested_valid(types: Seq<TypeModel>) -> bool {
    forall|i: int, k: int| 0 <= i < types.len() && 0 <= k < types[i].types.len()
        ==> #[trigger] types[i].types[k] < types.len()
}

/// An object is of a known type, has exactly its type's size, and is referenced.
pub open spec fn obj_wf(types: Seq<TypeModel>, o: ObjModel) -> bool {
    &&& o.object_type < types.len()
    &&& o.data.len() == types[o.object_type as int].size
    &&& o.references >= 1
}

/// Bytes held by a slot.
pub open spec fn obj_size(o: Option<ObjModel>) -> int {
    match o {
        Some(x) => x.data.len() as int,
        None => 0,
    }
}

/// Bytes held by all slots.
pub open spec fn live_size(s: Seq<Option<ObjModel>>) -> int
    decreases s.len(),
{
    if s.len() == 0 {
        0
    } else {
        live_size(s.drop_last()) + obj_size(s.last())
    }
}

/// The machine's invariant: it knows the six starting types first, type names are
/// unique, nested types are known, every held object is well formed, and the allocation
/// count covers every held object.
pub open spec fn wf(m: VmModel) -> bool {
    &&& 6 <= m.types.len() <= u32::MAX
    &&& forall|i: int| 0 <= i < 6 ==> #[trigger] m.types[i] == default_type(i)
    &&& ids_unique(m.types)
    &&& nested_valid(m.types)
    &&& m.objects.len() <= u32::MAX
    &&& forall|i: int| 0 <= i < m.objects.len() && #[trigger] m.objects[i] is Some
        ==> obj_wf(m.types, m.objects[i].unwrap())
    &&& live_size(m.objects) <= m.allocated_size
}

/// Slot `i` holds an object.
pub open spec fn live(m: VmModel, i: int) -> bool {
    0 <= i < m.objects.len() && m.objects[i] is Some
}

/// The object in slot `i`.
pub open spec fn obj_at(m: VmModel, i: int) -> ObjModel {
    m.objects[i].unwrap()
}

/// The first empty slot at or after `i`, or the number of slots.
pub open spec fn free_from(s: Seq<Option<ObjModel>>, i: nat) -> nat
    decreases s.len() - i,
{
    if i >= s.len() {
        s.len()
    } else if s[i as int] is None {
        i
    } else {
        free_from(s, i + 1)
    }
}

/// The first empty slot, or the number of slots when none is empty.
pub open spec fn first_free(s: Seq<Option<ObjModel>>) -> nat {
    free_from(s, 0)
}

pub(crate) proof fn lemma_free_from(s: Seq<Option<ObjModel>>, i: nat, k: nat)
    requires
        i <= k <= s.len(),
        forall|j: int| 0 <= j < k ==> s[j] is Some,
        k < s.len() ==> s[k as int] is None,
    ensures
        free_from(s, i) == k,
    decreases k - i,
{
    if i < k {
        lemma_free_from(s, i + 1, k);
    }
}

pub(crate) proof fn lemma_free_from_empty(s: Seq<Option<ObjModel>>, i: nat)
    ensures
        free_from(s, i) < s.len() ==> s[free_from(s, i) as int] is None,
        i <= s.len() ==> i <= free_from(s, i) <= s.len(),
        forall|j: int| i <= j < free_from(s, i) ==> s[j] is Some,
    decreases s.len() - i,
{
    if i < s.len() && s[i as int] is Some {
        lemma_free_from_empty(s, i + 1);
    }
}

pub(crate) proof fn lemma_live_size_nonneg(s: Seq<Option<ObjModel>>)
    ensures
        live_size(s) >= 0,
    decreases s.len(),
{
    if s.len() > 0 {
        lemma_live_size_nonneg(s.drop_last());
    }
}

pub(crate) proof fn lemma_live_size_update(s: Seq<Option<ObjModel>>, i: int, v: Option<ObjModel>)
    requires
        0 <= i < s.len(),
    ensures
        live_size(s.update(i, v)) == live_size(s) - obj_size(s[i]) + obj_size(v),
        obj_size(s[i]) <= live_size(s),
    decreases s.len(),
{
    lemma_live_size_nonneg(s.drop_last());
    if i == s.len() - 1 {
        assert(s.update(i, v).drop_last() =~= s.drop_last());
    } else {
        lemma_live_size_update(s.drop_last(), i, v);
        assert(s.update(i, v).drop_last() =~= s.drop_last().update(i, v));
    }
}

pub(crate) proof fn lemma_live_size_push(s: Seq<Option<ObjModel>>, v: Option<ObjModel>)
    ensures
        live_size(s.push(v)) == live_size(s) + obj_size(v),
{
    assert(s.push(v).drop_last() =~= s);
}


proof fn lemma_default_ids_distinct()
    ensures
        forall|i: int, j: int| 0 <= i < 6 && 0 <= j < 6 && i != j
            ==> default_type(i).id != default_type(j).id,
{
    reveal_strlit("byte");
    reveal_strlit("word");
    reveal_strlit("int");
    reveal_strlit("long");
    reveal_strlit("function_return");
    reveal_strlit("linked_list");
    assert forall|i: int, j: int| 0 <= i < 6 && 0 <= j < 6 && i != j
        implies default_type(i).id != default_type(j).id by {
        if default_type(i).id == default_type(j).id {
            assert(default_type(i).id.len() == default_type(j).id.len());
            assert(default_type(i).id[0] == default_type(j).id[0]);
        }
    }
}

/// A machine with no objects, no program and an empty stack that knows the six starting
/// types, may allocate `memory` bytes, and has not run.
pub open spec fn fresh_model(m: VmModel, memory: u64) -> bool {
    &&& m.types =~= Seq::new(6, |i: int| default_type(i))
    &&& m.objects.len() == 0
    &&& m.program.len() == 0
    &&& m.max_memory == memory
    &&& m.allocated_size == 0
    &&& m.stack.len() == 0
    &&& m.base_pointer == 0
    &&& m.program_pointer == 0
    &&& m.function_pointer == 0
    &&& !m.running
    &&& m.err_code == u32::MAX
    &&& !m.jump_trueth
}

/// `m` with the object `o` in slot `i`.
pub open spec fn with_obj(m: VmModel, i: int, o: Option<ObjModel>) -> VmModel {
    VmModel { objects: m.objects.update(i, o), ..m }
}

impl VMState {
    pub fn new(memory: u64) -> (vm: VMState)
        ensures
            wf(vm@),
            fresh_model(vm@, memory),
    {
        let state = VMState {
            struct_list: Vec::new(),
            objects: Vec::new(),
            program: Vec::new(),
            max_memory: memory,
            allocated_size: 0,
            stack: Vec::new(),
            base_pointer: 0,
            program_pointer: 0,
            function_pointer: 0,
            running: false,
            err_code: u32::MAX,
            jump_trueth: false,
        };
        state.default_types()
    }

    pub fn default() -> (vm: VMState)
        ensures
            wf(vm@),
            fresh_model(vm@, 1024),
    {
        let state = VMState {
            struct_list: Vec::new(),
            objects: Vec::new(),
            program: Vec::new(),
            max_memory: 1024,
            allocated_size: 0,
            stack: Vec::new(),
            base_pointer: 0,
            program_pointer: 0,
            function_pointer: 0,
            running: false,
            err_code: u32::MAX,
            jump_trueth: false,
        };
        state.default_types()
    }

    /// Registers the six starting types in an empty machine.
    fn default_types(self) -> (vm: VMState)
        requires
            self.struct_list@.len() == 0,
            self.objects@.len() == 0,
            self.allocated_size == 0,
        ensures
            wf(vm@),
            vm@ == (VmModel { types: Seq::new(6, |i: int| default_type(i)), ..self@ }),
    {
        let mut vm = self;
        vm.struct_list.push(ObjectType { size: 1, types: Vec::new(), pass_by: PassBy::Value, id: "byte".to_string() });
        vm.struct_list.push(ObjectType { size: 2, types: Vec::new(), pass_by: PassBy::Value, id: "word".to_string() });
        vm.struct_list.push(ObjectType { size: 4, types: Vec::new(), pass_by: PassBy::Value, id: "int".to_string() });
        vm.struct_list.push(ObjectType { size: 8, types: Vec::new(), pass_by: PassBy::Value, id: "long".to_string() });
        vm.struct_list.push(ObjectType { size: 24, types: Vec::new(), pass_by: PassBy::Value, id: "function_return".to_string() });
        let mut cell: Vec<u32> = Vec::new();
        cell.push(PRIM_INT);
        cell.push(PRIM_INT);
        cell.push(PRIM_INT);
        vm.struct_list.push(ObjectType { size: 12, types: cell, pass_by: PassBy::Reference, id: "linked_list".to_string() });
        proof {
            lemma_default_ids_distinct();
            assert(cell@ =~= seq![2u32, 2u32, 2u32]);
            assert(vm@.types =~= Seq::new(6, |i: int| default_type(i)));
            assert(vm@.objects =~= Seq::empty());
        }
        vm
    }

    /// The index of the type named `id`, if the machine knows one.
    fn find_type(&self, id: &String) -> (r: Option<usize>)
        requires
            ids_unique(self@.types),
        ensures
            r is None <==> !has_id(self@.types, id@),
            r matches Some(i) ==> i < self@.types.len() && self@.types[i as int].id == id@,
    {
        let mut i: usize = 0;
        while i < self.struct_list.len()
            invariant
                i <= self@.types.len(),
                self@.types.len() == self.struct_list@.len(),
                forall|j: int| 0 <= j < i ==> self@.types[j].id != id@,
            decreases self@.types.len() - i,
        {
            assert(self@.types[i as int] == self.struct_list@[i as int]@);
            if self.struct_list[i].id == *id {
                return Some(i);
            }
            i += 1;
        }
        None
    }

    /// Registers a type and returns its index, or returns `u32::MAX` and changes nothing
    /// when a type of the same name is already known.
    pub fn new_type(&mut self, tpy: ObjectType) -> (r: u32)
        requires
            wf(old(self)@),
            old(self)@.types.len() < u32::MAX,
            forall|k: int| 0 <= k < tpy.types@.len() ==> tpy.types@[k] < old(self)@.types.len(),
        ensures
            wf(final(self)@),
            has_id(old(self)@.types, tpy.id@) ==> r == u32::MAX && final(self)@ == old(self)@,
            !has_id(old(self)@.types, tpy.id@) ==> r == old(self)@.types.len() && final(self)@
                == (VmModel { types: old(self)@.types.push(tpy@), ..old(self)@ }),
    {
        if self.find_type(&tpy.id).is_some() {
            return 4294967295;
        }
        let ghost t = tpy@;
        self.struct_list.push(tpy);
        let x = self.struct_list.len() as u32 - 1;
        proof {
            let m = self@;
            let o = old(self)@;
            assert(m.types =~= o.types.push(t));
            assert(m.objects =~= o.objects);
            assert forall|i: int, j: int| 0 <= i < m.types.len() && 0 <= j < m.types.len() && i != j
                implies m.types[i].id != m.types[j].id by {
                if i == o.types.len() as int {
                    assert(o.types[j].id != t.id);
                } else if j == o.types.len() as int {
                    assert(o.types[i].id != t.id);
                }
            }
            assert forall|i: int, k: int| 0 <= i < m.types.len() && 0 <= k < m.types[i].types.len()
                implies #[trigger] m.types[i].types[k] < m.types.len() by {
                if i < o.types.len() {
                    assert(o.types[i].types[k] < o.types.len());
                }
            }
            assert forall|i: int| 0 <= i < m.objects.len() && #[trigger] m.objects[i] is Some
                implies obj_wf(m.types, m.objects[i].unwrap()) by {
                assert(obj_wf(o.types, o.objects[i].unwrap()));
            }
        }
        x
    }

    /// The type at `index`.
    pub fn get_type(&self, index: u32) -> (r: VmResult<&ObjectType>)
        ensures
            match r {
                Ok(t) => index < self@.types.len() && t@ == self@.types[index as int],
                Err(e) => index >= self@.types.len() && e == (ERR_NO_TYPE, "vm_state::get_type"),
            },
    {
        if (index as usize) < self.struct_list.len() {
            Ok(&self.struct_list[index as usize])
        } else {
            Err((ERR_NO_TYPE, "vm_state::get_type"))
        }
    }

    /// The type named `string`.
    pub fn get_type_string(&self, string: &String) -> (r: VmResult<&ObjectType>)
        requires
            wf(self@),
        ensures
            match r {
                Ok(t) => has_id(self@.types, string@) && t@.id == string@
                    && self@.types.contains(t@),
                Err(e) => !has_id(self@.types, string@)
                    && e == (ERR_NO_TYPE, "vm_state::get_type_string"),
            },
    {
        match self.find_type(string) {
            Some(i) => {
                let r = self.get_type(i as u32);
                proof {
                    assert(self@.types[i as int] == self@.types[i as int]);
                }
                r
            },
            None => Err((ERR_NO_TYPE, "vm_state::get_type_string")),
        }
    }
}


/// A new object of type `ot` whose size is `size`: one reference, zeroed bytes, no slot.
pub open spec fn fresh_obj(ot: u32, size: u32) -> ObjModel {
    ObjModel { object_type: ot, references: 1, data: zeros(size as nat), location: 4294967295 }
}

/// Placing object `o`: it goes into the first empty slot, or, when no slot is empty and
/// the allocation stays under the memory limit, into a new slot at the end; its size is
/// added to the allocation count and the slot's index is returned. Otherwise the machine
/// is out of memory.
pub open spec fn alloc_spec(m: VmModel, o: ObjModel) -> (VmModel, VmResult<u32>) {
    let k = first_free(m.objects);
    let size = m.types[o.object_type as int].size;
    if k < m.objects.len() {
        (
            VmModel {
                objects: m.objects.update(k as int, Some(ObjModel { location: k as u32, ..o })),
                allocated_size: (m.allocated_size + size) as u64,
                ..m
            },
            Ok(k as u32),
        )
    } else if m.allocated_size + size < m.max_memory {
        (
            VmModel {
                objects: m.objects.push(Some(ObjModel { location: m.objects.len() as u32, ..o })),
                allocated_size: (m.allocated_size + size) as u64,
                ..m
            },
            Ok(m.objects.len() as u32),
        )
    } else {
        (m, Err((ERR_OOM, "vm_state::new_object_direct")))
    }
}

/// Placing `o` neither overflows the allocation count nor needs a slot index past
/// `u32::MAX`.
pub open spec fn alloc_ok(m: VmModel, o: ObjModel) -> bool {
    let size = m.types[o.object_type as int].size;
    &&& m.allocated_size + size <= u64::MAX
    &&& (first_free(m.objects) == m.objects.len() && m.allocated_size + size < m.max_memory
        ==> m.objects.len() < u32::MAX)
}

/// Creating a zeroed object of type `ot` (see [`alloc_spec`]).
pub open spec fn new_object_spec(m: VmModel, ot: u32) -> (VmModel, VmResult<u32>) {
    alloc_spec(m, fresh_obj(ot, m.types[ot as int].size))
}

/// Writing `data` into the object at `index`: its bytes are cleared, then `data` is laid
/// over them; data longer than the object leaves it cleared and fails.
pub open spec fn write_spec(m: VmModel, index: u32, data: Seq<u8>) -> (VmModel, VmEmpty) {
    if !live(m, index as int) {
        (m, Err((ERR_NO_OBJECT, "vm_state::write_object")))
    } else {
        let o = obj_at(m, index as int);
        if data.len() > o.data.len() {
            (
                with_obj(m, index as int, Some(ObjModel { data: zeros(o.data.len()), ..o })),
                Err((ERR_OBJECT_WRITE, "vm_state::write_object::set_data")),
            )
        } else {
            (
                with_obj(
                    m,
                    index as int,
                    Some(ObjModel { data: data + zeros((o.data.len() - data.len()) as nat), ..o }),
                ),
                Ok(()),
            )
        }
    }
}

/// One more reference to the object at `index`.
pub open spec fn inc_spec(m: VmModel, index: u32) -> (VmModel, VmEmpty) {
    if !live(m, index as int) {
        (m, Err((ERR_NO_OBJECT, "vm_state::inc_object_count")))
    } else {
        let o = obj_at(m, index as int);
        (with_obj(m, index as int, Some(ObjModel { references: (o.references + 1) as u32, ..o })), Ok(()))
    }
}

/// One reference less to the object at `index`; the last one frees its slot and takes
/// its size off the allocation count.
pub open spec fn dec_spec(m: VmModel, index: u32) -> (VmModel, VmEmpty) {
    if !live(m, index as int) {
        (m, Err((ERR_NO_OBJECT, "vm_state::dec_object_count")))
    } else {
        let o = obj_at(m, index as int);
        if o.references - 1 == 0 {
            (
                VmModel {
                    objects: m.objects.update(index as int, None),
                    allocated_size: (m.allocated_size - o.data.len()) as u64,
                    ..m
                },
                Ok(()),
            )
        } else {
            (with_obj(m, index as int, Some(ObjModel { references: (o.references - 1) as u32, ..o })), Ok(()))
        }
    }
}

/// Pushing object `object` on the stack, with one more reference when `autoinc`.
pub open spec fn push_spec(m: VmModel, object: u32, autoinc: bool) -> (VmModel, VmEmpty) {
    if !live(m, object as int) {
        (m, Err((ERR_NO_OBJECT, "vm_state::stack_push")))
    } else {
        let m1 = if autoinc { inc_spec(m, object).0 } else { m };
        (VmModel { stack: m1.stack.push(object), ..m1 }, Ok(()))
    }
}

/// The extra reference a push takes does not overflow the count.
pub open spec fn push_ok(m: VmModel, object: u32, autoinc: bool) -> bool {
    autoinc && live(m, object as int) ==> obj_at(m, object as int).references < u32::MAX
}

/// Popping the stack's top object, with one reference less when `autodec`; a top entry
/// that names no object is dropped and reported.
pub open spec fn pop_spec(m: VmModel, autodec: bool) -> (VmModel, VmResult<u32>) {
    if m.stack.len() == 0 {
        (m, Err((ERR_STACK_EMPTY, "vm_state::stack_pop")))
    } else {
        let o = m.stack.last();
        let m1 = VmModel { stack: m.stack.drop_last(), ..m };
        if !live(m1, o as int) {
            (m1, Err((ERR_NO_OBJECT, "vm_state::stack_pop")))
        } else if autodec {
            (dec_spec(m1, o).0, Ok(o))
        } else {
            (m1, Ok(o))
        }
    }
}

/// Reading the next byte of the running function: it must exist; the program pointer
/// moves past it.
pub open spec fn read_byte_spec(m: VmModel) -> (VmModel, VmResult<u8>) {
    let f = m.function_pointer as int;
    let p = m.program_pointer as int;
    if f < m.program.len() && p < m.program[f].function@.len() {
        (VmModel { program_pointer: (m.program_pointer + 1) as u64, ..m }, Ok(m.program[f].function@[p]))
    } else {
        (m, Err((ERR_PROGRAM_READ, "vm_state::read_program_byte")))
    }
}

/// The four little-endian bytes of `a`.
pub open spec fn le32(a: u32) -> Seq<u8> {
    seq![(a & 0xFF) as u8, ((a & 0xFF00) >> 8u32) as u8, ((a & 0xFF0000) >> 16u32) as u8, ((a & 0xFF000000) >> 24u32) as u8]
}

/// The bytes that fill a struct of type `set_ty` from the objects at `addrs`, starting
/// with the `k`-th, given the known types and the slots: each object must exist and be of
/// the struct's `k`-th nested type (same name); one passed by reference gives its index as
/// four little-endian bytes, one passed by value its own bytes.
pub open spec fn typed_bytes_in(
    types: Seq<TypeModel>,
    objects: Seq<Option<ObjModel>>,
    set_ty: TypeModel,
    addrs: Seq<u32>,
    k: nat,
    acc: Seq<u8>,
) -> VmResult<Seq<u8>>
    decreases addrs.len() - k,
{
    if k >= addrs.len() {
        Ok(acc)
    } else {
        let a = addrs[k as int];
        if !(0 <= a < objects.len() && objects[a as int] is Some) {
            Err((ERR_NO_OBJECT, "vm_state::write_object_typed"))
        } else if k >= set_ty.types.len() {
            Err((ERR_NO_TYPE, "vm_state::write_object_typed"))
        } else {
            let o = objects[a as int].unwrap();
            let ot = types[o.object_type as int];
            if ot.id != types[set_ty.types[k as int] as int].id {
                Err((ERR_TYPE_MISH, "vm_state::write_object_typed"))
            } else if ot.pass_by == PassBy::Reference {
                typed_bytes_in(types, objects, set_ty, addrs, k + 1, acc + le32(a))
            } else {
                typed_bytes_in(types, objects, set_ty, addrs, k + 1, acc + o.data)
            }
        }
    }
}

/// [`typed_bytes_in`] over the machine's types and slots.
pub open spec fn typed_bytes(m: VmModel, set_ty: TypeModel, addrs: Seq<u32>, k: nat, acc: Seq<u8>) -> VmResult<Seq<u8>> {
    typed_bytes_in(m.types, m.objects, set_ty, addrs, k, acc)
}

/// Filling the struct at `index` from the objects at `addrs` (see [`typed_bytes`]); the
/// bytes must make up exactly the struct's size, and are then written into it.
pub open spec fn write_typed_spec(m: VmModel, index: u32, addrs: Seq<u32>) -> (VmModel, VmEmpty) {
    if !live(m, index as int) {
        (m, Err((ERR_NO_OBJECT, "vm_state::write_object_typed")))
    } else {
        let set_ty = m.types[obj_at(m, index as int).object_type as int];
        match typed_bytes(m, set_ty, addrs, 0, Seq::empty()) {
            Err(e) => (m, Err(e)),
            Ok(d) => if d.len() != set_ty.size {
                (m, Err((ERR_OBJECT_WRITE, "vm_state::write_object_typed")))
            } else {
                write_spec(m, index, d)
            },
        }
    }
}

/// Bytes a nested type takes in a struct: 4 for an index when passed by reference, its
/// own size when passed by value.
pub open spec fn field_size(types: Seq<TypeModel>, t: u32) -> int {
    if types[t as int].pass_by == PassBy::Reference {
        4
    } else {
        types[t as int].size as int
    }
}

/// The size of a struct of the nested types `nested`.
pub open spec fn fields_size(types: Seq<TypeModel>, nested: Seq<u32>) -> int
    decreases nested.len(),
{
    if nested.len() == 0 {
        0
    } else {
        fields_size(types, nested.drop_last()) + field_size(types, nested.last())
    }
}

proof fn lemma_fields_size_mono(types: Seq<TypeModel>, nested: Seq<u32>, k: int)
    requires
        0 <= k <= nested.len(),
    ensures
        fields_size(types, nested.take(k)) <= fields_size(types, nested),
        fields_size(types, nested.take(k)) >= 0,
    decreases nested.len(),
{
    if nested.len() > 0 {
        if k == nested.len() {
            assert(nested.take(k) =~= nested);
            lemma_fields_size_mono(types, nested.drop_last(), k - 1);
            assert(nested.drop_last().take(k - 1) =~= nested.take(k - 1));
        } else {
            lemma_fields_size_mono(types, nested.drop_last(), k);
            assert(nested.drop_last().take(k) =~= nested.take(k));
            lemma_fields_size_mono(types, nested.drop_last(), nested.len() - 1);
            assert(nested.drop_last().take(nested.len() - 1) =~= nested.drop_last());
        }
    } else {
        assert(nested.take(k) =~= nested);
    }
}

/// The lemmas the machine's well-formedness needs after its objects change.
proof fn lemma_wf_objects(m: VmModel, m2: VmModel)
    requires
        wf(m),
        m2.types == m.types,
        m2.objects.len() <= u32::MAX,
        forall|i: int| 0 <= i < m2.objects.len() && #[trigger] m2.objects[i] is Some
            ==> obj_wf(m2.types, m2.objects[i].unwrap()),
        live_size(m2.objects) <= m2.allocated_size,
    ensures
        wf(m2),
{
}

impl VMState {
    /// Empties slot `i` and hands back what it held.
    fn take_slot(&mut self, i: usize) -> (o: Option<Object>)
        requires
            i < old(self).objects@.len(),
        ensures
            o == old(self).objects@[i as int],
            final(self).objects@ == old(self).objects@.update(i as int, None),
            final(self).struct_list == old(self).struct_list,
            final(self).program == old(self).program,
            final(self).stack == old(self).stack,
            final(self).max_memory == old(self).max_memory,
            final(self).allocated_size == old(self).allocated_size,
            final(self).base_pointer == old(self).base_pointer,
            final(self).program_pointer == old(self).program_pointer,
            final(self).function_pointer == old(self).function_pointer,
            final(self).running == old(self).running,
            final(self).err_code == old(self).err_code,
            final(self).jump_trueth == old(self).jump_trueth,
    {
        let mut o: Option<Object> = None;
        std::mem::swap(&mut o, &mut self.objects[i]);
        o
    }

    /// Places an object in the first empty slot, or in a new slot when none is empty and
    /// memory allows (see [`alloc_spec`]), and returns the slot's index.
    pub fn new_object_direct(&mut self, object: Object) -> (r: VmResult<u32>)
        requires
            wf(old(self)@),
            obj_wf(old(self)@.types, object@),
            alloc_ok(old(self)@, object@),
        ensures
            wf(final(self)@),
            (final(self)@, r) == alloc_spec(old(self)@, object@),
    {
        let ghost o = object@;
        let mut obj = object;
        let ghost m = self@;
        let mut count: usize = 0;
        while count < self.objects.len()
            invariant
                self@ == m,
                m == old(self)@,
                o == object@,
                obj@ == o,
                wf(m),
                obj_wf(m.types, o),
                alloc_ok(m, o),
                self.struct_list@.len() == m.types.len(),
                count <= m.objects.len(),
                self.objects@.len() == m.objects.len(),
                forall|j: int| 0 <= j < count ==> m.objects[j] is Some,
            decreases m.objects.len() - count,
        {
            assert(m.objects[count as int] == opt_view(self.objects@[count as int]));
            if self.objects[count].is_none() {
                proof {
                    lemma_free_from(m.objects, 0, count as nat);
                }
                obj.set_location(count as u32);
                let size = self.struct_list[obj.type_index() as usize].size;
                assert(size == m.types[o.object_type as int].size);
                self.allocated_size = self.allocated_size + size as u64;
                let ghost placed = obj@;
                self.objects.set(count, Some(obj));
                proof {
                    assert(self@.objects =~= m.objects.update(count as int, Some(placed)));
                    lemma_live_size_update(m.objects, count as int, Some(placed));
                    lemma_wf_objects(m, self@);
                }
                return Ok(count as u32);
            }
            count += 1;
        }
        proof {
            lemma_free_from(m.objects, 0, m.objects.len());
        }
        let size = self.struct_list[obj.type_index() as usize].size as u64;
        if self.allocated_size + size < self.max_memory {
            obj.set_location(self.objects.len() as u32);
            self.allocated_size = self.allocated_size + size;
            let ghost placed = obj@;
            self.objects.push(Some(obj));
            proof {
                assert(self@.objects =~= m.objects.push(Some(placed)));
                lemma_live_size_push(m.objects, Some(placed));
                lemma_wf_objects(m, self@);
            }
            return Ok(self.objects.len() as u32 - 1);
        }
        Err((ERR_OOM, "vm_state::new_object_direct"))
    }

    /// Writes `data` into the object at `index` (see [`write_spec`]).
    pub fn write_object(&mut self, index: u32, data: Vec<u8>) -> (r: VmEmpty)
        requires
            wf(old(self)@),
        ensures
            wf(final(self)@),
            (final(self)@, r) == write_spec(old(self)@, index, data@),
    {
        let ghost m = self@;
        if index as usize >= self.objects.len() {
            return Err((ERR_NO_OBJECT, "vm_state::write_object"));
        }
        let slot = self.take_slot(index as usize);
        assert(m.objects[index as int] == opt_view(slot));
        match slot {
            None => {
                self.objects.set(index as usize, None);
                assert(self@.objects =~= m.objects);
                Err((ERR_NO_OBJECT, "vm_state::write_object"))
            },
            Some(y) => {
                let mut y = y;
                y.clear_data();
                let ok = y.set_data(data);
                let ghost placed = y@;
                self.objects.set(index as usize, Some(y));
                proof {
                    assert(self@.objects =~= m.objects.update(index as int, Some(placed)));
                    assert(placed.data =~= write_spec(m, index, data@).0.objects[index as int].unwrap().data);
                    lemma_live_size_update(m.objects, index as int, Some(placed));
                    lemma_wf_objects(m, self@);
                }
                if !ok {
                    Err((ERR_OBJECT_WRITE, "vm_state::write_object::set_data"))
                } else {
                    Ok(())
                }
            },
        }
    }

    /// The bytes of the object at `index`.
    pub fn read_object(&self, index: u32) -> (r: VmResult<&Vec<u8>>)
        requires
            index < self@.objects.len(),
        ensures
            match r {
                Ok(d) => live(self@, index as int) && d@ == obj_at(self@, index as int).data,
                Err(e) => !live(self@, index as int) && e == (ERR_NO_OBJECT, "vm_state::read_object"),
            },
    {
        assert(self@.objects[index as int] == opt_view(self.objects@[index as int]));
        match &self.objects[index as usize] {
            Some(x) => Ok(x.get_data()),
            None => Err((ERR_NO_OBJECT, "vm_state::read_object")),
        }
    }

    /// The type of the object at `index`.
    pub fn read_object_type(&self, index: u32) -> (r: VmResult<&ObjectType>)
        requires
            wf(self@),
            index < self@.objects.len(),
        ensures
            match r {
                Ok(t) => live(self@, index as int) && t@ == self@.types[obj_at(self@, index as int).object_type as int],
                Err(e) => !live(self@, index as int) && e == (ERR_NO_OBJECT, "vm_state::read_object_type"),
            },
    {
        assert(self@.objects[index as int] == opt_view(self.objects@[index as int]));
        match &self.objects[index as usize] {
            Some(x) => {
                assert(obj_wf(self@.types, x@));
                Ok(&self.struct_list[x.type_index() as usize])
            },
            None => Err((ERR_NO_OBJECT, "vm_state::read_object_type")),
        }
    }

    /// Adds a reference to the object at `index` (see [`inc_spec`]).
    pub fn inc_object_count(&mut self, index: u32) -> (r: VmEmpty)
        requires
            wf(old(self)@),
            index < old(self)@.objects.len(),
            live(old(self)@, index as int) ==> obj_at(old(self)@, index as int).references < u32::MAX,
        ensures
            wf(final(self)@),
            (final(self)@, r) == inc_spec(old(self)@, index),
    {
        let ghost m = self@;
        let slot = self.take_slot(index as usize);
        assert(m.objects[index as int] == opt_view(slot));
        match slot {
            None => {
                self.objects.set(index as usize, None);
                assert(self@.objects =~= m.objects);
                Err((ERR_NO_OBJECT, "vm_state::inc_object_count"))
            },
            Some(x) => {
                let mut x = x;
                let count = x.get_ref_count();
                x.set_ref_count(count + 1);
                let ghost placed = x@;
                self.objects.set(index as usize, Some(x));
                proof {
                    assert(self@.objects =~= m.objects.update(index as int, Some(placed)));
                    lemma_live_size_update(m.objects, index as int, Some(placed));
                    lemma_wf_objects(m, self@);
                }
                Ok(())
            },
        }
    }

    /// Drops a reference to the object at `index`, freeing it with the last one (see
    /// [`dec_spec`]).
    pub fn dec_object_count(&mut self, index: u32) -> (r: VmEmpty)
        requires
            wf(old(self)@),
            index < old(self)@.objects.len(),
        ensures
            wf(final(self)@),
            (final(self)@, r) == dec_spec(old(self)@, index),
    {
        let ghost m = self@;
        let slot = self.take_slot(index as usize);
        assert(m.objects[index as int] == opt_view(slot));
        match slot {
            None => {
                self.objects.set(index as usize, None);
                assert(self@.objects =~= m.objects);
                Err((ERR_NO_OBJECT, "vm_state::dec_object_count"))
            },
            Some(x) => {
                let mut x = x;
                assert(obj_wf(m.types, x@));
                let count = x.get_ref_count() - 1;
                proof {
                    lemma_live_size_update(m.objects, index as int, None);
                }
                if count <= 0 {
                    let size = self.struct_list[x.type_index() as usize].size;
                    self.allocated_size = self.allocated_size - size as u64;
                    proof {
                        assert(self@.objects =~= m.objects.update(index as int, None));
                        lemma_wf_objects(m, self@);
                    }
                    return Ok(());
                }
                x.set_ref_count(count);
                let ghost placed = x@;
                self.objects.set(index as usize, Some(x));
                proof {
                    assert(self@.objects =~= m.objects.update(index as int, Some(placed)));
                    lemma_live_size_update(m.objects, index as int, Some(placed));
                    lemma_wf_objects(m, self@);
                }
                Ok(())
            },
        }
    }

    /// Pushes the object at `object` on the stack, adding a reference when `autoinc`
    /// (see [`push_spec`]).
    pub fn stack_push(&mut self, object: u32, autoinc: bool) -> (r: VmEmpty)
        requires
            wf(old(self)@),
            push_ok(old(self)@, object, autoinc),
        ensures
            wf(final(self)@),
            (final(self)@, r) == push_spec(old(self)@, object, autoinc),
    {
        let ghost m = self@;
        if object as usize >= self.objects.len() {
            return Err((ERR_NO_OBJECT, "vm_state::stack_push"));
        }
        assert(m.objects[object as int] == opt_view(self.objects@[object as int]));
        if self.objects[object as usize].is_none() {
            return Err((ERR_NO_OBJECT, "vm_state::stack_push"));
        }
        if autoinc {
            let _ = self.inc_object_count(object);
        }
        self.stack.push(object);
        proof {
            assert(self@.objects == push_spec(m, object, autoinc).0.objects);
        }
        Ok(())
    }

    /// Pops the stack's top object, dropping a reference when `autodec` (see
    /// [`pop_spec`]).
    pub fn stack_pop(&mut self, autodec: bool) -> (r: VmResult<u32>)
        requires
            wf(old(self)@),
        ensures
            wf(final(self)@),
            (final(self)@, r) == pop_spec(old(self)@, autodec),
    {
        let ghost m = self@;
        let object = match self.stack.pop() {
            Some(o) => o,
            None => return Err((ERR_STACK_EMPTY, "vm_state::stack_pop")),
        };
        proof {
            assert(self@.stack =~= m.stack.drop_last());
        }
        if object as usize >= self.objects.len() {
            return Err((ERR_NO_OBJECT, "vm_state::stack_pop"));
        }
        assert(self@.objects[object as int] == opt_view(self.objects@[object as int]));
        if self.objects[object as usize].is_none() {
            return Err((ERR_NO_OBJECT, "vm_state::stack_pop"));
        }
        if autodec {
            let _ = self.dec_object_count(object);
        }
        Ok(object)
    }

    /// The object index `index` entries above the base pointer on the stack.
    pub fn stack_local_var(&self, index: u64) -> (r: VmResult<u32>)
        requires
            self@.base_pointer + index <= u64::MAX,
        ensures
            ({
                let i = self@.base_pointer + index;
                match r {
                    Ok(o) => i < self@.stack.len() && o == self@.stack[i],
                    Err(e) => i >= self@.stack.len() && e == (ERR_NO_OBJECT, "vm_state::stack_local_var"),
                }
            }),
    {
        let i = self.base_pointer + index;
        if i < self.stack.len() as u64 {
            Ok(self.stack[i as usize])
        } else {
            Err((ERR_NO_OBJECT, "vm_state::stack_local_var"))
        }
    }

    /// Adds a function to the program and returns its index; a function longer than the
    /// machine's memory is refused. Its length counts as allocated.
    pub fn write_function(&mut self, function: Function) -> (r: VmResult<u64>)
        requires
            wf(old(self)@),
            function.function@.len() <= old(self)@.max_memory ==> old(self)@.allocated_size
                + function.function@.len() <= u64::MAX,
        ensures
            wf(final(self)@),
            old(self)@.max_memory < function.function@.len() ==> final(self)@ == old(self)@
                && r == Err::<u64, VmError>((ERR_OOM, "vm_state::write_function")),
            old(self)@.max_memory >= function.function@.len() ==> final(self)@ == (VmModel {
                program: old(self)@.program.push(function),
                allocated_size: (old(self)@.allocated_size + function.function@.len()) as u64,
                ..old(self)@
            }) && r == Ok::<u64, VmError>(old(self)@.program.len() as u64),
    {
        if self.max_memory < function.function.len() as u64 {
            return Err((ERR_OOM, "vm_state::write_function"));
        }
        self.allocated_size = self.allocated_size + function.function.len() as u64;
        self.program.push(function);
        Ok((self.program.len() - 1) as u64)
    }

    /// Reads the next byte of the running function (see [`read_byte_spec`]).
    pub fn read_program_byte(&mut self) -> (r: VmResult<u8>)
        ensures
            (final(self)@, r) == read_byte_spec(old(self)@),
    {
        let f = self.function_pointer;
        let p = self.program_pointer;
        if f < self.program.len() as u64 && p < self.program[f as usize].function.len() as u64 {
            let z = self.program[f as usize].function[p as usize];
            self.program_pointer = self.program_pointer + 1;
            Ok(z)
        } else {
            Err((ERR_PROGRAM_READ, "vm_state::read_program_byte"))
        }
    }

    /// Whether the object at `pointer` exists and is a byte, word, int or long.
    pub fn is_basic_primitive(&self, pointer: u32) -> (b: bool)
        requires
            wf(self@),
            pointer < self@.objects.len(),
        ensures
            b == (live(self@, pointer as int) && {
                let id = self@.types[obj_at(self@, pointer as int).object_type as int].id;
                id == "byte"@ || id == "word"@ || id == "int"@ || id == "long"@
            }),
    {
        let typ = self.read_object_type(pointer);
        match typ {
            Err(_) => false,
            Ok(_) => {
                let ghost t = obj_at(self@, pointer as int).object_type as int;
                proof {
                    assert(self@.types[0] == default_type(0));
                    assert(self@.types[1] == default_type(1));
                    assert(self@.types[2] == default_type(2));
                    assert(self@.types[3] == default_type(3));
                }
                assert(self@.objects[pointer as int] == opt_view(self.objects@[pointer as int]));
                let ot = match &self.objects[pointer as usize] {
                    Some(x) => x.type_index(),
                    None => 0,
                };
                ot < 4
            },
        }
    }

    /// Fills the struct at `index` from the objects at `objects` (see
    /// [`write_typed_spec`]).
    pub fn write_object_typed(&mut self, index: u32, objects: Vec<u32>) -> (r: VmEmpty)
        requires
            wf(old(self)@),
        ensures
            wf(final(self)@),
            (final(self)@, r) == write_typed_spec(old(self)@, index, objects@),
    {
        let ghost m = self@;
        let mut data: Vec<u8> = Vec::new();
        if index as usize >= self.objects.len() {
            return Err((ERR_NO_OBJECT, "vm_state::write_object_typed"));
        }
        assert(m.objects[index as int] == opt_view(self.objects@[index as int]));
        let set_ty: usize = match &self.objects[index as usize] {
            Some(z) => z.type_index() as usize,
            None => return Err((ERR_NO_OBJECT, "vm_state::write_object_typed")),
        };
        assert(obj_wf(m.types, obj_at(m, index as int)));
        let ghost st = m.types[set_ty as int];
        let mut k: usize = 0;
        while k < objects.len()
            invariant
                self@ == m,
                m == old(self)@,
                wf(m),
                self.struct_list@.len() == m.types.len(),
                live(m, index as int),
                set_ty == obj_at(m, index as int).object_type,
                set_ty < m.types.len(),
                st == m.types[set_ty as int],
                k <= objects@.len(),
                typed_bytes(m, st, objects@, k as nat, data@) == typed_bytes(m, st, objects@, 0, Seq::empty()),
            decreases objects@.len() - k,
        {
            let address = objects[k];
            if address as usize >= self.objects.len() {
                return Err((ERR_NO_OBJECT, "vm_state::write_object_typed"));
            }
            assert(m.objects[address as int] == opt_view(self.objects@[address as int]));
            let object = match &self.objects[address as usize] {
                Some(z) => z,
                None => return Err((ERR_NO_OBJECT, "vm_state::write_object_typed")),
            };
            assert(st == self.struct_list@[set_ty as int]@);
            if k >= self.struct_list[set_ty].types.len() {
                return Err((ERR_NO_TYPE, "vm_state::write_object_typed"));
            }
            let want = self.struct_list[set_ty].types[k];
            let have = object.type_index();
            assert(obj_wf(m.types, object@));
            assert(want < m.types.len());
            assert(m.types[want as int] == self.struct_list@[want as int]@);
            assert(m.types[have as int] == self.struct_list@[have as int]@);
            if !(self.struct_list[have as usize].id == self.struct_list[want as usize].id) {
                return Err((ERR_TYPE_MISH, "vm_state::write_object_typed"));
            }
            match self.struct_list[have as usize].pass_by {
                PassBy::Reference => {
                    let ghost typed_before = data@;
                    data.push((address & 0xFF) as u8);
                    data.push(((address & 0xFF00) >> 8) as u8);
                    data.push(((address & 0xFF0000) >> 16) as u8);
                    data.push(((address & 0xFF000000) >> 24) as u8);
                    proof {
                        assert(data@ =~= typed_before + le32(address));
                    }
                },
                PassBy::Value => {
                    let bytes = object.get_data();
                    let ghost before = data@;
                    let mut j: usize = 0;
                    while j < bytes.len()
                        invariant
                            j <= bytes@.len(),
                            data@ == before + bytes@.take(j as int),
                        decreases bytes@.len() - j,
                    {
                        data.push(bytes[j]);
                        j += 1;
                        assert(data@ =~= before + bytes@.take(j as int));
                    }
                    assert(bytes@.take(bytes@.len() as int) =~= bytes@);
                },
            }
            k += 1;
        }
        assert(st == self.struct_list@[set_ty as int]@);
        if data.len() != self.struct_list[set_ty].size as usize {
            return Err((ERR_OBJECT_WRITE, "vm_state::write_object_typed"));
        }
        self.write_object(index, data)
    }
}

impl ObjectType {
    /// Registers a type of `size` bytes with no nested types, passed by value, named
    /// `id`, and returns its index.
    pub fn new_primitive(size: u32, id: &str, vm: &mut VMState) -> (r: u32)
        requires
            wf(old(vm)@),
            old(vm)@.types.len() < u32::MAX,
            !has_id(old(vm)@.types, id@),
        ensures
            wf(final(vm)@),
            r == old(vm)@.types.len(),
            final(vm)@ == (VmModel {
                types: old(vm)@.types.push(TypeModel { size, types: Seq::empty(), pass_by: PassBy::Value, id: id@ }),
                ..old(vm)@
            }),
    {
        let z = ObjectType { size, types: Vec::new(), pass_by: PassBy::Value, id: id.to_string() };
        proof {
            assert(z@ =~= TypeModel { size, types: Seq::empty(), pass_by: PassBy::Value, id: id@ });
        }
        vm.new_type(z)
    }

    /// Registers a struct of the nested types `types`, whose size is the sum of theirs
    /// (4 bytes for one passed by reference), and returns its index, or `u32::MAX` when
    /// the name is taken.
    pub fn new_struct(types: Vec<u32>, id: String, pass_by: PassBy, vm: &mut VMState) -> (r: u32)
        requires
            wf(old(vm)@),
            old(vm)@.types.len() < u32::MAX,
            forall|k: int| 0 <= k < types@.len() ==> types@[k] < old(vm)@.types.len(),
            fields_size(old(vm)@.types, types@) <= u32::MAX,
        ensures
            wf(final(vm)@),
            has_id(old(vm)@.types, id@) ==> r == u32::MAX && final(vm)@ == old(vm)@,
            !has_id(old(vm)@.types, id@) ==> r == old(vm)@.types.len() && final(vm)@ == (VmModel {
                types: old(vm)@.types.push(TypeModel {
                    size: fields_size(old(vm)@.types, types@) as u32,
                    types: types@,
                    pass_by,
                    id: id@,
                }),
                ..old(vm)@
            }),
    {
        let ghost tys = vm@.types;
        let mut size: u32 = 0;
        let mut k: usize = 0;
        while k < types.len()
            invariant
                vm@.types == tys,
                vm.struct_list@.len() == tys.len(),
                forall|j: int| 0 <= j < types@.len() ==> types@[j] < tys.len(),
                fields_size(tys, types@) <= u32::MAX,
                k <= types@.len(),
                size == fields_size(tys, types@.take(k as int)),
            decreases types@.len() - k,
        {
            let t = types[k] as usize;
            assert(tys[t as int] == vm.struct_list@[t as int]@);
            proof {
                lemma_fields_size_mono(tys, types@, k as int + 1);
                assert(types@.take(k as int + 1).drop_last() =~= types@.take(k as int));
            }
            let add = match vm.struct_list[t].pass_by {
                PassBy::Reference => 4,
                PassBy::Value => vm.struct_list[t].size,
            };
            size = size + add;
            k += 1;
        }
        assert(types@.take(types@.len() as int) =~= types@);
        let z = ObjectType { size, types, pass_by, id };
        vm.new_type(z)
    }
}

/// The big-endian `u32` in the four bytes of `b` from `i`.
fn read_be32(b: &VecDeque<u8>, i: usize) -> (v: u32)
    requires
        i + 4 <= b@.len(),
        b@.len() <= usize::MAX,
    ensures
        v == be32_at(b@, i as int),
{
    ((b[i] as u32) << 24) | ((b[i + 1] as u32) << 16) | ((b[i + 2] as u32) << 8) | (b[i + 3] as u32)
}

impl ObjectType {
    /// Reads a type back from its bytes (see [`parse_type`]), checking its nested types
    /// against those the machine knows.
    pub fn from_bytes(bytes: VecDeque<u8>, vm: &VMState) -> (r: VmResult<ObjectType>)
        ensures
            match parse_type(bytes@, vm@.types.len()) {
                Ok(t) => r matches Ok(o) && o@ == t,
                Err(e) => r == Err::<ObjectType, VmError>(e),
            },
    {
        let len = bytes.len();
        if len < 13 {
            return Err((ERR_PROGRAM_READ, "object::from_bytes"));
        }
        let size = read_be32(&bytes, 0);
        let flag = bytes[4];
        if flag > 1 {
            return Err((ERR_PROGRAM_READ, "object::from_bytes"));
        }
        let n = read_be32(&bytes, 5);
        if (len as u64) < 13 + 4 * (n as u64) {
            return Err((ERR_PROGRAM_READ, "object::from_bytes"));
        }
        let ghost nested_all = Seq::new(n as nat, |k: int| be32_at(bytes@, 9 + 4 * k));
        let mut nested: Vec<u32> = Vec::new();
        let mut k: u32 = 0;
        while k < n
            invariant
                k <= n,
                len == bytes@.len(),
                13 + 4 * n <= len,
                n == be32_at(bytes@, 5),
                bytes@[4] <= 1,
                vm.struct_list@.len() == vm@.types.len(),
                nested_all == Seq::new(n as nat, |j: int| be32_at(bytes@, 9 + 4 * j)),
                nested@ == nested_all.take(k as int),
                forall|j: int| 0 <= j < k ==> nested_all[j] < vm@.types.len(),
            decreases n - k,
        {
            let t = read_be32(&bytes, 9 + 4 * k as usize);
            if t as usize >= vm.struct_list.len() {
                assert(nested_all[k as int] == t);
                return Err((ERR_NO_TYPE, "object::from_bytes"));
            }
            nested.push(t);
            k += 1;
            assert(nested@ =~= nested_all.take(k as int));
        }
        assert(nested_all.take(n as int) =~= nested_all);
        let at = 9 + 4 * n as usize;
        let l = read_be32(&bytes, at);
        if (len as u64) < 13 + 4 * (n as u64) + l as u64 {
            return Err((ERR_PROGRAM_READ, "object::from_bytes"));
        }
        let start = at + 4;
        let mut name: Vec<u8> = Vec::new();
        let mut j: usize = 0;
        while j < l as usize
            invariant
                j <= l,
                start + l <= bytes@.len(),
                bytes@.len() <= usize::MAX,
                name@ == bytes@.subrange(start as int, start + j),
            decreases l - j,
        {
            name.push(bytes[start + j]);
            j += 1;
            assert(name@ =~= bytes@.subrange(start as int, start + j));
        }
        let pass_by = if flag == 1 {
            PassBy::Reference
        } else {
            PassBy::Value
        };
        match string_from_utf8(name) {
            None => Err((ERR_PROGRAM_READ, "object::from_bytes")),
            Some(id) => Ok(ObjectType { size, types: nested, pass_by, id }),
        }
    }
}

impl Object {
    /// Creates a zeroed object of the type at `object_type` in the machine and returns
    /// its slot (see [`new_object_spec`]).
    pub fn new_object(object_type: u32, vm: &mut VMState) -> (r: VmResult<u32>)
        requires
            wf(old(vm)@),
            object_type < old(vm)@.types.len(),
            alloc_ok(old(vm)@, fresh_obj(object_type, old(vm)@.types[object_type as int].size)),
        ensures
            wf(final(vm)@),
            (final(vm)@, r) == new_object_spec(old(vm)@, object_type),
    {
        assert(vm@.types[object_type as int] == vm.struct_list@[object_type as int]@);
        let size = vm.struct_list[object_type as usize].size;
        let obj = Object::fresh(object_type, size);
        vm.new_object_direct(obj)
    }
}


/// The first `n` little-endian bytes of `v`.
pub open spec fn le_bytes_of(v: u64, n: nat) -> Seq<u8> {
    Seq::new(n, |i: int| le_byte(v, i as nat))
}

/// The eight big-endian bytes of `v`.
pub open spec fn be_bytes_of(v: u64) -> Seq<u8> {
    Seq::new(8, |i: int| le_byte(v, (7 - i) as nat))
}

/// The big-endian number formed by the `n` bytes of `s` from `start`.
pub open spec fn be_read(s: Seq<u8>, start: int, n: nat) -> nat
    decreases n,
{
    if n == 0 {
        0
    } else {
        (be_read(s, start, (n - 1) as nat) * 256 + s[start + n - 1]) as nat
    }
}

/// Whether the object at `x` is a byte, word, int or long.
pub open spec fn is_basic(m: VmModel, x: u32) -> bool {
    live(m, x as int) && {
        let id = m.types[obj_at(m, x as int).object_type as int].id;
        id == "byte"@ || id == "word"@ || id == "int"@ || id == "long"@
    }
}

/// Creating a zeroed object of type `ot` does not overflow (see [`alloc_ok`]).
pub open spec fn new_object_ok(m: VmModel, ot: u32) -> bool {
    alloc_ok(m, fresh_obj(ot, m.types[ot as int].size))
}

/// Creates an object of type `ty`, writes `bytes` into it and pushes it on the stack.
/// `None` where the allocation would overflow.
pub open spec fn make_and_push(m: VmModel, ty: u32, bytes: Seq<u8>) -> Option<(VmModel, VmEmpty)> {
    if !new_object_ok(m, ty) {
        None
    } else {
        match new_object_spec(m, ty) {
            (m1, Err(e)) => Some((m1, Err(e))),
            (m1, Ok(obj)) => match write_spec(m1, obj, bytes) {
                (m2, Err(e)) => Some((m2, Err(e))),
                (m2, Ok(_)) => Some(push_spec(m2, obj, false)),
            },
        }
    }
}

/// Gathering the fields of a new struct with nested types `nested`, from the `z`-th on:
/// each is popped from the stack and must have the nested type's name; one passed by
/// reference contributes its index (and keeps a reference from the struct), one passed by
/// value its bytes; the stack's reference is then dropped. `None` where a reference count
/// would overflow.
pub open spec fn new_fields_spec(m: VmModel, nested: Seq<u32>, z: nat, bytes: Seq<u8>) -> Option<(VmModel, VmResult<Seq<u8>>)>
    decreases nested.len() - z,
{
    if z >= nested.len() {
        Some((m, Ok(bytes)))
    } else {
        match pop_spec(m, false) {
            (m1, Err(e)) => Some((m1, Err(e))),
            (m1, Ok(pnt)) => {
                let o = obj_at(m1, pnt as int);
                let y = m1.types[o.object_type as int];
                if m1.types[nested[z as int] as int].id != y.id {
                    Some((m1, Err((ERR_TYPE_MISH, "bytecode::New"))))
                } else if y.pass_by == PassBy::Reference {
                    if o.references == u32::MAX {
                        None
                    } else {
                        new_fields_spec(dec_spec(inc_spec(m1, pnt).0, pnt).0, nested, z + 1, bytes + le32(pnt))
                    }
                } else {
                    new_fields_spec(dec_spec(m1, pnt).0, nested, z + 1, bytes + o.data)
                }
            },
        }
    }
}

/// `New`: builds an object of the type the first operand names from objects popped off
/// the stack (see [`new_fields_spec`]) and pushes it.
pub open spec fn new_spec(m: VmModel, ops: Seq<Operand>) -> Option<(VmModel, VmEmpty)> {
    if ops.len() < 1 {
        Some((m, Err((ERR_OPERAND, "bytecode::New"))))
    } else {
        let ty = ops[0].direct_value as u32;
        if ty >= m.types.len() {
            Some((m, Err((ERR_NO_TYPE, "vm_state::get_type"))))
        } else {
            match new_fields_spec(m, m.types[ty as int].types, 0, Seq::empty()) {
                None => None,
                Some((m1, Err(e))) => Some((m1, Err(e))),
                Some((m1, Ok(bytes))) => make_and_push(m1, ty, bytes),
            }
        }
    }
}

/// The index of the primitive type of a width: byte 0, word 1, int 2, long 3.
pub open spec fn prim_index(size: Size) -> u32 {
    match size {
        Size::Byte => 0,
        Size::Word => 1,
        Size::Int => 2,
        Size::Long => 3,
    }
}

/// `PshPrm`: pushes a primitive of the first operand's width holding its value.
pub open spec fn pshprm_spec(m: VmModel, ops: Seq<Operand>) -> Option<(VmModel, VmEmpty)> {
    if ops.len() < 1 {
        Some((m, Err((ERR_OPERAND, "bytecode::PshPrm"))))
    } else {
        make_and_push(m, prim_index(ops[0].size), le_bytes_of(ops[0].direct_value, ops[0].size.spec_size()))
    }
}

/// `Dup`: pops the top object; one passed by reference is pushed back twice (with one
/// more reference), one passed by value is copied into a new object, which is pushed
/// below it. `None` where a count would overflow.
pub open spec fn dup_spec(m: VmModel) -> Option<(VmModel, VmEmpty)> {
    match pop_spec(m, false) {
        (m1, Err(e)) => Some((m1, Err(e))),
        (m1, Ok(z)) => {
            let o = obj_at(m1, z as int);
            if m1.types[o.object_type as int].pass_by == PassBy::Reference {
                if o.references == u32::MAX {
                    None
                } else {
                    Some(push_spec(push_spec(m1, z, true).0, z, false))
                }
            } else if !new_object_ok(m1, o.object_type) {
                None
            } else {
                match new_object_spec(m1, o.object_type) {
                    (m2, Err(e)) => Some((m2, Err(e))),
                    (m2, Ok(n)) => match write_spec(m2, n, o.data) {
                        (m3, Err(e)) => Some((m3, Err(e))),
                        (m3, Ok(_)) => Some(push_spec(push_spec(m3, n, false).0, z, false)),
                    },
                }
            }
        },
    }
}

/// Popping a primitive: the top object must be a byte, word, int or long; its
/// little-endian value and type index come back, and the stack's reference is dropped.
pub open spec fn prim_spec(m: VmModel) -> (VmModel, VmResult<(u64, u32)>) {
    match pop_spec(m, false) {
        (m1, Err(e)) => (m1, Err(e)),
        (m1, Ok(x)) => if !is_basic(m1, x) {
            (m1, Err((ERR_TYPE_MISH, "bytecode::get_primitive_value_unsigned")))
        } else {
            let o = obj_at(m1, x as int);
            (dec_spec(m1, x).0, Ok((le_read(o.data, 0, o.data.len()) as u64, o.object_type)))
        },
    }
}

/// `Add` (or `Sub` when `sub`): pops two primitives, the top one first, and pushes their
/// wrapping sum (or the second minus the first) as the wider of their two types (the
/// second's on a tie).
pub open spec fn arith_spec(m: VmModel, sub: bool) -> Option<(VmModel, VmEmpty)> {
    match prim_spec(m) {
        (m1, Err(e)) => Some((m1, Err(e))),
        (m1, Ok((v1, t1))) => match prim_spec(m1) {
            (m2, Err(e)) => Some((m2, Err(e))),
            (m2, Ok((v2, t2))) => {
                let larger = if m2.types[t1 as int].size <= m2.types[t2 as int].size { t2 } else { t1 };
                let value: u64 = if sub {
                    if v2 >= v1 { (v2 - v1) as u64 } else { (v2 - v1 + 0x1_0000_0000_0000_0000) as u64 }
                } else {
                    if v1 + v2 <= u64::MAX { (v1 + v2) as u64 } else { (v1 + v2 - 0x1_0000_0000_0000_0000) as u64 }
                };
                make_and_push(m2, larger, trimmed(le_bytes_of(value, 8), m2.types[larger as int].size as nat))
            },
        },
    }
}

/// The comparison an opcode from 12 to 17 makes of the top primitive `x` with the one
/// below it, `y`.
pub open spec fn compare(code: u16, x: u64, y: u64) -> bool {
    if code == 12 {
        x == y
    } else if code == 13 {
        x < y
    } else if code == 14 {
        x > y
    } else if code == 15 {
        x != y
    } else if code == 16 {
        x <= y
    } else {
        x >= y
    }
}

/// `CmpEq` .. `CmpGrEq`: pops two primitives and records the comparison for the next
/// conditional jump.
pub open spec fn cmp_spec(m: VmModel, code: u16) -> Option<(VmModel, VmEmpty)> {
    match prim_spec(m) {
        (m1, Err(e)) => Some((m1, Err(e))),
        (m1, Ok((x, _))) => match prim_spec(m1) {
            (m2, Err(e)) => Some((m2, Err(e))),
            (m2, Ok((y, _))) => Some((VmModel { jump_trueth: compare(code, x, y), ..m2 }, Ok(()))),
        },
    }
}

/// The 24 bytes of a call record: the program pointer, the base pointer and the function
/// pointer to come back to, each big-endian.
pub open spec fn call_record(pp: u64, bp: u64, fp: u64) -> Seq<u8> {
    be_bytes_of(pp) + be_bytes_of(bp) + be_bytes_of(fp)
}

/// `Cal`: calls the function the operand names. The function's arguments are the top
/// entries of the stack, one per argument type; a call record saving the program, base and
/// function pointers (see [`call_record`]) is put below them, the base pointer moves to the
/// first argument, and the function runs from its start. A missing operand, an unknown
/// function or a stack with fewer entries than arguments is an error. `None` where a
/// count would overflow.
pub open spec fn cal_spec(m: VmModel, ops: Seq<Operand>) -> Option<(VmModel, VmEmpty)> {
    if ops.len() < 1 {
        Some((m, Err((ERR_OPERAND, "bytecode::Cal"))))
    } else {
        let f = ops[0].direct_value;
        if f >= m.program.len() {
            Some((m, Err((ERR_PROGRAM_READ, "bytecode::Cal"))))
        } else if m.stack.len() < m.program[f as int].arg_type@.len() {
            Some((m, Err((ERR_STACK_EMPTY, "bytecode::Cal"))))
        } else if m.stack.len() + 1 > u64::MAX || !new_object_ok(m, PRIM_FN_RT) {
            None
        } else {
            match new_object_spec(m, PRIM_FN_RT) {
                (m1, Err(e)) => Some((m1, Err(e))),
                (m1, Ok(obj)) => match write_spec(
                    m1,
                    obj,
                    call_record(m.program_pointer, m.base_pointer, m.function_pointer),
                ) {
                    (m2, Err(e)) => Some((m2, Err(e))),
                    (m2, Ok(_)) => {
                        let at = m.stack.len() - m.program[f as int].arg_type@.len();
                        Some((
                            VmModel {
                                stack: m2.stack.insert(at, obj),
                                base_pointer: (at + 1) as u64,
                                program_pointer: 0,
                                function_pointer: f,
                                ..m2
                            },
                            Ok(()),
                        ))
                    },
                }
            }
        }
    }
}

/// `Ret`: pops objects (dropping their references) until a call record, whose saved
/// program, base and function pointers are restored; the record is released.
pub open spec fn ret_spec(m: VmModel) -> (VmModel, VmEmpty)
    decreases m.stack.len(),
{
    match pop_spec(m, false) {
        (m1, Err(e)) => (m1, Err(e)),
        (m1, Ok(obj)) => {
            let o = obj_at(m1, obj as int);
            if o.object_type == PRIM_FN_RT {
                let m2 = VmModel {
                    program_pointer: be_read(o.data, 0, 8) as u64,
                    base_pointer: be_read(o.data, 8, 8) as u64,
                    function_pointer: be_read(o.data, 16, 8) as u64,
                    ..m1
                };
                (dec_spec(m2, obj).0, Ok(()))
            } else {
                ret_spec(dec_spec(m1, obj).0)
            }
        },
    }
}

/// Popping `n` more entries off the stack, keeping their references, in front of those in
/// `acc`; the result lists them bottom first.
pub open spec fn popn_spec(m: VmModel, n: nat, acc: Seq<u32>) -> (VmModel, VmResult<Seq<u32>>)
    decreases n,
{
    if n == 0 {
        (m, Ok(acc))
    } else {
        match pop_spec(m, false) {
            (m1, Err(e)) => (m1, Err(e)),
            (m1, Ok(o)) => popn_spec(m1, (n - 1) as nat, seq![o] + acc),
        }
    }
}

/// `RetVal`: returns the top entries of the stack, as many as the operand says: they are
/// taken off, the function returns as with `Ret`, and they are put back on the caller's
/// stack in their order, keeping their references.
pub open spec fn retval_spec(m: VmModel, ops: Seq<Operand>) -> (VmModel, VmEmpty) {
    if ops.len() < 1 {
        (m, Err((ERR_OPERAND, "bytecode::RetVal")))
    } else {
        match popn_spec(m, ops[0].direct_value as nat, Seq::empty()) {
            (m1, Err(e)) => (m1, Err(e)),
            (m1, Ok(vals)) => match ret_spec(m1) {
                (m2, Err(e)) => (m2, Err(e)),
                (m2, Ok(_)) => (VmModel { stack: m2.stack + vals, ..m2 }, Ok(())),
            },
        }
    }
}

/// Whether `code` names an instruction.
pub open spec fn known_op(code: u16) -> bool {
    code <= 3 || (9 <= code <= 21)
}

/// How many operands the instruction `code` takes.
pub open spec fn op_count(code: u16) -> u8 {
    if code == 1 || code == 2 || code == 11 || code == 19 || code == 21 {
        1
    } else if code == 18 {
        2
    } else {
        0
    }
}

/// Running instruction `code` with the operands `ops`. `None` where the machine would
/// stop on an overflow.
pub open spec fn exec_spec(m: VmModel, code: u16, ops: Seq<Operand>) -> Option<(VmModel, VmEmpty)> {
    if code == 0 {
        Some((VmModel { running: false, err_code: 0, ..m }, Ok(())))
    } else if code == 1 {
        new_spec(m, ops)
    } else if code == 2 {
        pshprm_spec(m, ops)
    } else if code == 3 {
        dup_spec(m)
    } else if code == 9 {
        arith_spec(m, false)
    } else if code == 10 {
        arith_spec(m, true)
    } else if code == 11 {
        if ops.len() < 1 {
            Some((m, Err((ERR_NO_OBJECT, "bytecode::JmpUnc"))))
        } else {
            Some((VmModel { program_pointer: ops[0].direct_value, ..m }, Ok(())))
        }
    } else if 12 <= code <= 17 {
        cmp_spec(m, code)
    } else if code == 18 {
        let k: int = if m.jump_trueth { 0 } else { 1 };
        if ops.len() <= k {
            Some((m, Err((ERR_NO_OBJECT, "bytecode::JmpCnd"))))
        } else {
            Some((VmModel { program_pointer: ops[k].direct_value, ..m }, Ok(())))
        }
    } else if code == 19 {
        cal_spec(m, ops)
    } else if code == 20 {
        Some(ret_spec(m))
    } else if code == 21 {
        Some(retval_spec(m, ops))
    } else {
        Some((m, Err((ERR_NO_OP_CODE, "bytecode::get_opcode"))))
    }
}


proof fn lemma_be_read_step(s: Seq<u8>, start: int, n: nat, acc: u64)
    requires
        acc == be_read(s, start, n),
        acc < pow256(n),
        n < 8,
        0 <= start + n < s.len(),
    ensures
        acc * 256 + s[start + n] == be_read(s, start, n + 1),
        acc * 256 + s[start + n] < pow256(n + 1),
        pow256(n + 1) <= 0x1_0000_0000_0000_0000,
        acc < 0x100_0000_0000_0000,
{
    reveal_with_fuel(pow256, 9);
    let b = s[start + n];
    assert(acc * 256 + b < pow256(n) * 256) by (nonlinear_arith)
        requires
            acc < pow256(n),
            b < 256,
    ;
    assert(pow256(n) <= pow256(7)) by {
        if n == 0 {} else if n == 1 {} else if n == 2 {} else if n == 3 {} else if n == 4 {}
        else if n == 5 {} else if n == 6 {} else {}
    }
    assert(pow256(n + 1) <= pow256(8)) by {
        if n == 0 {} else if n == 1 {} else if n == 2 {} else if n == 3 {} else if n == 4 {}
        else if n == 5 {} else if n == 6 {} else {}
    }
}

/// Copies a byte vector.
fn copy_bytes(v: &Vec<u8>) -> (r: Vec<u8>)
    ensures
        r@ == v@,
{
    let mut r: Vec<u8> = Vec::new();
    let mut i: usize = 0;
    while i < v.len()
        invariant
            i <= v@.len(),
            r@ == v@.take(i as int),
        decreases v@.len() - i,
    {
        r.push(v[i]);
        i += 1;
        assert(r@ =~= v@.take(i as int));
    }
    assert(v@.take(v@.len() as int) =~= v@);
    r
}

/// The first `n` little-endian bytes of `v`.
fn le_bytes(v: u64, n: u64) -> (r: Vec<u8>)
    requires
        n <= 8,
    ensures
        r@ == le_bytes_of(v, n as nat),
{
    let mut r: Vec<u8> = Vec::new();
    let mut k: u64 = 0;
    while k < n
        invariant
            k <= n <= 8,
            r@ == le_bytes_of(v, k as nat),
        decreases n - k,
    {
        r.push(((v >> (8 * k)) & 0xff) as u8);
        k += 1;
        assert(r@ =~= le_bytes_of(v, k as nat));
    }
    r
}

/// The eight big-endian bytes of `v`.
fn be_bytes(v: u64) -> (r: Vec<u8>)
    ensures
        r@ == be_bytes_of(v),
{
    let mut r: Vec<u8> = Vec::new();
    let mut k: u64 = 0;
    while k < 8
        invariant
            k <= 8,
            r@ == be_bytes_of(v).take(k as int),
        decreases 8 - k,
    {
        r.push(((v >> (8 * (7 - k))) & 0xff) as u8);
        k += 1;
        assert(r@ =~= be_bytes_of(v).take(k as int));
    }
    assert(be_bytes_of(v).take(8) =~= be_bytes_of(v));
    r
}

/// The big-endian number in the eight bytes of `d` from `start`.
fn be_u64(d: &Vec<u8>, start: usize) -> (v: u64)
    requires
        start <= 16,
        start + 8 <= d@.len(),
    ensures
        v == be_read(d@, start as int, 8),
{
    let mut acc: u64 = 0;
    let mut i: usize = 0;
    while i < 8
        invariant
            i <= 8,
            start + 8 <= d@.len(),
            start <= 16,
            acc == be_read(d@, start as int, i as nat),
            acc < pow256(i as nat),
        decreases 8 - i,
    {
        proof {
            lemma_be_read_step(d@, start as int, i as nat, acc);
        }
        acc = acc * 256 + d[start + i] as u64;
        i += 1;
    }
    acc
}

impl VMState {
    /// The reference count of the object at `i`.
    fn refs_at(&self, i: u32) -> (n: u32)
        requires
            live(self@, i as int),
        ensures
            n == obj_at(self@, i as int).references,
    {
        assert(self@.objects[i as int] == opt_view(self.objects@[i as int]));
        match &self.objects[i as usize] {
            Some(x) => x.get_ref_count(),
            None => 0,
        }
    }

    /// The type index of the object at `i`.
    fn type_at(&self, i: u32) -> (t: u32)
        requires
            wf(self@),
            live(self@, i as int),
        ensures
            t == obj_at(self@, i as int).object_type,
            t < self@.types.len(),
            self@.types[t as int] == self.struct_list@[t as int]@,
    {
        assert(self@.objects[i as int] == opt_view(self.objects@[i as int]));
        match &self.objects[i as usize] {
            Some(x) => x.type_index(),
            None => 0,
        }
    }

    /// The bytes of the object at `i`.
    fn data_at(&self, i: u32) -> (d: &Vec<u8>)
        requires
            live(self@, i as int),
        ensures
            d@ == obj_at(self@, i as int).data,
    {
        match self.read_object(i) {
            Ok(d) => d,
            Err(_) => &self.program[0].function,
        }
    }

    /// Whether creating an object of type `ot` stays clear of overflow (see
    /// [`new_object_ok`]).
    fn can_new_object(&self, ot: u32) -> (b: bool)
        requires
            wf(self@),
            ot < self@.types.len(),
        ensures
            b == new_object_ok(self@, ot),
    {
        assert(self@.types[ot as int] == self.struct_list@[ot as int]@);
        let size = self.struct_list[ot as usize].size as u64;
        if self.allocated_size > u64::MAX - size {
            return false;
        }
        let mut count: usize = 0;
        while count < self.objects.len()
            invariant
                count <= self@.objects.len(),
                self.objects@.len() == self@.objects.len(),
                forall|j: int| 0 <= j < count ==> self@.objects[j] is Some,
                ot < self@.types.len(),
                size == self@.types[ot as int].size,
                self@.allocated_size + size <= u64::MAX,
            decreases self@.objects.len() - count,
        {
            assert(self@.objects[count as int] == opt_view(self.objects@[count as int]));
            if self.objects[count].is_none() {
                proof {
                    lemma_free_from(self@.objects, 0, count as nat);
                }
                return true;
            }
            count += 1;
        }
        proof {
            lemma_free_from(self@.objects, 0, self@.objects.len());
        }
        if self.allocated_size + size < self.max_memory {
            self.objects.len() < 4294967295
        } else {
            true
        }
    }

    /// Creates an object of type `ty`, writes `bytes` into it and pushes it (see
    /// [`make_and_push`]).
    fn make_and_push_exec(&mut self, ty: u32, bytes: Vec<u8>) -> (r: Option<VmEmpty>)
        requires
            wf(old(self)@),
            ty < old(self)@.types.len(),
        ensures
            match make_and_push(old(self)@, ty, bytes@) {
                None => r is None,
                Some((m, e)) => r == Some(e) && final(self)@ == m && wf(m),
            },
    {
        if !self.can_new_object(ty) {
            return None;
        }
        let obj = match Object::new_object(ty, self) {
            Ok(o) => o,
            Err(e) => return Some(Err(e)),
        };
        match self.write_object(obj, bytes) {
            Ok(()) => {},
            Err(e) => return Some(Err(e)),
        }
        Some(self.stack_push(obj, false))
    }

    /// `New` (see [`new_spec`]).
    fn op_new(&mut self, ops: &Vec<Operand>) -> (r: Option<VmEmpty>)
        requires
            wf(old(self)@),
        ensures
            match new_spec(old(self)@, ops@) {
                None => r is None,
                Some((m, e)) => r == Some(e) && final(self)@ == m && wf(m),
            },
    {
        if ops.len() < 1 {
            return Some(Err((ERR_OPERAND, "bytecode::New")));
        }
        let ty = ops[0].direct_value as u32;
        match self.get_type(ty) {
            Ok(_) => {},
            Err(e) => return Some(Err(e)),
        }
        let ghost m0 = self@;
        let ghost nested = m0.types[ty as int].types;
        assert(m0.types[ty as int] == self.struct_list@[ty as int]@);
        let n = self.struct_list[ty as usize].types.len();
        let mut bytes: Vec<u8> = Vec::new();
        let mut z: usize = 0;
        while z < n
            invariant
                wf(self@),
                m0 == old(self)@,
                ops@.len() >= 1,
                ty == ops@[0].direct_value as u32,
                self@.types == m0.types,
                self.struct_list@.len() == m0.types.len(),
                ty < m0.types.len(),
                nested == m0.types[ty as int].types,
                nested == self.struct_list@[ty as int].types@,
                n == nested.len(),
                z <= n,
                new_fields_spec(self@, nested, z as nat, bytes@) == new_fields_spec(m0, nested, 0, Seq::empty()),
            decreases n - z,
        {
            let ghost mz = self@;
            let pnt = match self.stack_pop(false) {
                Ok(p) => p,
                Err(e) => {
                    assert(new_fields_spec(mz, nested, z as nat, bytes@) == Some((self@, Err::<Seq<u8>, VmError>(e))));
                    return Some(Err(e));
                },
            };
            let yt = self.type_at(pnt);
            let want = self.struct_list[ty as usize].types[z];
            assert(want < m0.types.len());
            assert(self@.types[want as int] == self.struct_list@[want as int]@);
            if !(self.struct_list[want as usize].id == self.struct_list[yt as usize].id) {
                assert(new_fields_spec(mz, nested, z as nat, bytes@) == Some((self@, Err::<Seq<u8>, VmError>((ERR_TYPE_MISH, "bytecode::New")))));
                return Some(Err((ERR_TYPE_MISH, "bytecode::New")));
            }
            match self.struct_list[yt as usize].pass_by {
                PassBy::Reference => {
                    let ghost before = bytes@;
                    bytes.push((pnt & 0xFF) as u8);
                    bytes.push(((pnt & 0xFF00) >> 8) as u8);
                    bytes.push(((pnt & 0xFF0000) >> 16) as u8);
                    bytes.push(((pnt & 0xFF000000) >> 24) as u8);
                    assert(bytes@ =~= before + le32(pnt));
                    if self.refs_at(pnt) == u32::MAX {
                        return None;
                    }
                    let _ = self.inc_object_count(pnt);
                },
                PassBy::Value => {
                    let ghost before = bytes@;
                    let d = self.data_at(pnt);
                    let mut j: usize = 0;
                    while j < d.len()
                        invariant
                            j <= d@.len(),
                            bytes@ == before + d@.take(j as int),
                        decreases d@.len() - j,
                    {
                        bytes.push(d[j]);
                        j += 1;
                        assert(bytes@ =~= before + d@.take(j as int));
                    }
                    assert(d@.take(d@.len() as int) =~= d@);
                },
            }
            let _ = self.dec_object_count(pnt);
            z += 1;
        }
        self.make_and_push_exec(ty, bytes)
    }

    /// `PshPrm` (see [`pshprm_spec`]).
    fn op_pshprm(&mut self, ops: &Vec<Operand>) -> (r: Option<VmEmpty>)
        requires
            wf(old(self)@),
        ensures
            match pshprm_spec(old(self)@, ops@) {
                None => r is None,
                Some((m, e)) => r == Some(e) && final(self)@ == m && wf(m),
            },
    {
        if ops.len() < 1 {
            return Some(Err((ERR_OPERAND, "bytecode::PshPrm")));
        }
        let ty: u32 = match ops[0].size {
            Size::Byte => 0,
            Size::Word => 1,
            Size::Int => 2,
            Size::Long => 3,
        };
        let n = ops[0].size.get_size();
        let bytes = le_bytes(ops[0].direct_value, n as u64);
        self.make_and_push_exec(ty, bytes)
    }

    /// `Dup` (see [`dup_spec`]).
    fn op_dup(&mut self) -> (r: Option<VmEmpty>)
        requires
            wf(old(self)@),
        ensures
            match dup_spec(old(self)@) {
                None => r is None,
                Some((m, e)) => r == Some(e) && final(self)@ == m && wf(m),
            },
    {
        let z = match self.stack_pop(false) {
            Ok(z) => z,
            Err(e) => return Some(Err(e)),
        };
        let t = self.type_at(z);
        match self.struct_list[t as usize].pass_by {
            PassBy::Reference => {
                if self.refs_at(z) == u32::MAX {
                    return None;
                }
                let _ = self.stack_push(z, true);
            },
            PassBy::Value => {
                let bytes = copy_bytes(self.data_at(z));
                if !self.can_new_object(t) {
                    return None;
                }
                let n = match Object::new_object(t, self) {
                    Ok(n) => n,
                    Err(e) => return Some(Err(e)),
                };
                match self.write_object(n, bytes) {
                    Ok(()) => {},
                    Err(e) => return Some(Err(e)),
                }
                let _ = self.stack_push(n, false);
            },
        }
        Some(self.stack_push(z, false))
    }

    /// Pops a primitive (see [`prim_spec`]).
    fn prim_value(&mut self) -> (r: VmResult<(u64, u32)>)
        requires
            wf(old(self)@),
        ensures
            wf(final(self)@),
            (final(self)@, r) == prim_spec(old(self)@),
            r matches Ok((_, t)) ==> t < 4,
    {
        let x = match self.stack_pop(false) {
            Ok(x) => x,
            Err(e) => return Err(e),
        };
        if !self.is_basic_primitive(x) {
            return Err((ERR_TYPE_MISH, "bytecode::get_primitive_value_unsigned"));
        }
        let t = self.type_at(x);
        proof {
            let m = self@;
            assert(m.types[0] == default_type(0));
            assert(m.types[1] == default_type(1));
            assert(m.types[2] == default_type(2));
            assert(m.types[3] == default_type(3));
            if t >= 4 {
                let id = m.types[t as int].id;
                if id == "byte"@ {
                    assert(m.types[t as int].id == m.types[0].id);
                } else if id == "word"@ {
                    assert(m.types[t as int].id == m.types[1].id);
                } else if id == "int"@ {
                    assert(m.types[t as int].id == m.types[2].id);
                } else {
                    assert(m.types[t as int].id == m.types[3].id);
                }
            }
            assert(obj_wf(m.types, obj_at(m, x as int)));
        }
        let v = {
            let d = self.data_at(x);
            read_le(d, 0, d.len())
        };
        let _ = self.dec_object_count(x);
        Ok((v, t))
    }

    /// `Add` or `Sub` (see [`arith_spec`]).
    fn op_arith(&mut self, sub: bool) -> (r: Option<VmEmpty>)
        requires
            wf(old(self)@),
        ensures
            match arith_spec(old(self)@, sub) {
                None => r is None,
                Some((m, e)) => r == Some(e) && final(self)@ == m && wf(m),
            },
    {
        let (v1, t1) = match self.prim_value() {
            Ok(p) => p,
            Err(e) => return Some(Err(e)),
        };
        let (v2, t2) = match self.prim_value() {
            Ok(p) => p,
            Err(e) => return Some(Err(e)),
        };
        assert(self@.types[t1 as int] == self.struct_list@[t1 as int]@);
        assert(self@.types[t2 as int] == self.struct_list@[t2 as int]@);
        let larger = if self.struct_list[t1 as usize].size <= self.struct_list[t2 as usize].size {
            t2
        } else {
            t1
        };
        assert(self@.types[larger as int] == default_type(larger as int));
        let size = self.struct_list[larger as usize].size;
        let value = if sub {
            v2.wrapping_sub(v1)
        } else {
            v1.wrapping_add(v2)
        };
        let data = le_bytes(value, 8);
        let trimmed_data = trim_value(&data, size as u8);
        self.make_and_push_exec(larger, trimmed_data)
    }

    /// `CmpEq` .. `CmpGrEq` (see [`cmp_spec`]).
    fn op_cmp(&mut self, code: u16) -> (r: Option<VmEmpty>)
        requires
            wf(old(self)@),
        ensures
            match cmp_spec(old(self)@, code) {
                None => r is None,
                Some((m, e)) => r == Some(e) && final(self)@ == m && wf(m),
            },
    {
        let (x, _) = match self.prim_value() {
            Ok(p) => p,
            Err(e) => return Some(Err(e)),
        };
        let (y, _) = match self.prim_value() {
            Ok(p) => p,
            Err(e) => return Some(Err(e)),
        };
        self.jump_trueth = if code == 12 {
            x == y
        } else if code == 13 {
            x < y
        } else if code == 14 {
            x > y
        } else if code == 15 {
            x != y
        } else if code == 16 {
            x <= y
        } else {
            x >= y
        };
        Some(Ok(()))
    }

    /// `Cal` (see [`cal_spec`]).
    fn op_cal(&mut self, ops: &Vec<Operand>) -> (r: Option<VmEmpty>)
        requires
            wf(old(self)@),
        ensures
            match cal_spec(old(self)@, ops@) {
                None => r is None,
                Some((m, e)) => r == Some(e) && final(self)@ == m && wf(m),
            },
    {
        let ghost m = self@;
        if ops.len() < 1 {
            return Some(Err((ERR_OPERAND, "bytecode::Cal")));
        }
        let f = ops[0].direct_value;
        if f >= self.program.len() as u64 {
            return Some(Err((ERR_PROGRAM_READ, "bytecode::Cal")));
        }
        let args = self.program[f as usize].arg_type.len();
        let len = self.stack.len();
        if len < args {
            return Some(Err((ERR_STACK_EMPTY, "bytecode::Cal")));
        }
        if len as u64 == u64::MAX || !self.can_new_object(PRIM_FN_RT) {
            return None;
        }
        let mut record = be_bytes(self.program_pointer);
        let mut base = be_bytes(self.base_pointer);
        let mut func = be_bytes(self.function_pointer);
        record.append(&mut base);
        record.append(&mut func);
        assert(record@ == call_record(m.program_pointer, m.base_pointer, m.function_pointer));
        let obj = match Object::new_object(PRIM_FN_RT, self) {
            Ok(o) => o,
            Err(e) => return Some(Err(e)),
        };
        match self.write_object(obj, record) {
            Ok(()) => {},
            Err(e) => return Some(Err(e)),
        }
        let at = len - args;
        self.stack.insert(at, obj);
        self.base_pointer = at as u64 + 1;
        self.program_pointer = 0;
        self.function_pointer = f;
        Some(Ok(()))
    }

    /// `Ret` (see [`ret_spec`]).
    fn op_ret(&mut self) -> (r: VmEmpty)
        requires
            wf(old(self)@),
        ensures
            wf(final(self)@),
            (final(self)@, r) == ret_spec(old(self)@),
    {
        loop
            invariant
                wf(self@),
                ret_spec(self@) == ret_spec(old(self)@),
            decreases self@.stack.len(),
        {
            let obj = match self.stack_pop(false) {
                Ok(o) => o,
                Err(e) => return Err(e),
            };
            let t = self.type_at(obj);
            if t == PRIM_FN_RT {
                assert(self@.types[4] == default_type(4));
                assert(obj_wf(self@.types, obj_at(self@, obj as int)));
                let (pp, bp, fp) = {
                    let d = self.data_at(obj);
                    (be_u64(d, 0), be_u64(d, 8), be_u64(d, 16))
                };
                self.program_pointer = pp;
                self.base_pointer = bp;
                self.function_pointer = fp;
                let _ = self.dec_object_count(obj);
                return Ok(());
            } else {
                let _ = self.dec_object_count(obj);
            }
        }
    }

    /// `RetVal` (see [`retval_spec`]).
    fn op_retval(&mut self, ops: &Vec<Operand>) -> (r: VmEmpty)
        requires
            wf(old(self)@),
        ensures
            wf(final(self)@),
            (final(self)@, r) == retval_spec(old(self)@, ops@),
    {
        if ops.len() < 1 {
            return Err((ERR_OPERAND, "bytecode::RetVal"));
        }
        let n = ops[0].direct_value;
        let mut vals: Vec<u32> = Vec::new();
        let mut k: u64 = 0;
        while k < n
            invariant
                wf(self@),
                k <= n,
                ops@.len() >= 1,
                n == ops@[0].direct_value,
                popn_spec(self@, (n - k) as nat, vals@) == popn_spec(old(self)@, n as nat, Seq::empty()),
            decreases n - k,
        {
            let ghost mk = self@;
            let ghost acc = vals@;
            assert(popn_spec(mk, (n - k) as nat, acc) == match pop_spec(mk, false) {
                (m1, Err(e)) => (m1, Err(e)),
                (m1, Ok(o)) => popn_spec(m1, (n - k - 1) as nat, seq![o] + acc),
            });
            let o = match self.stack_pop(false) {
                Ok(o) => o,
                Err(e) => return Err(e),
            };
            vals.insert(0, o);
            assert(vals@ =~= seq![o] + acc);
            k += 1;
        }
        match self.op_ret() {
            Ok(()) => {},
            Err(e) => return Err(e),
        }
        let ghost before = self@;
        let mut i: usize = 0;
        while i < vals.len()
            invariant
                wf(self@),
                i <= vals@.len(),
                self@ == (VmModel { stack: before.stack + vals@.take(i as int), ..before }),
            decreases vals@.len() - i,
        {
            self.stack.push(vals[i]);
            i += 1;
            assert(before.stack + vals@.take(i as int) =~= self@.stack);
        }
        assert(vals@.take(vals@.len() as int) =~= vals@);
        Ok(())
    }

    /// Runs instruction `code` with the operands `ops` (see [`exec_spec`]); `None` where
    /// the machine would stop on an overflow.
    pub(crate) fn execute(&mut self, code: u16, ops: &Vec<Operand>) -> (r: Option<VmEmpty>)
        requires
            wf(old(self)@),
        ensures
            match exec_spec(old(self)@, code, ops@) {
                None => r is None,
                Some((m, e)) => r == Some(e) && final(self)@ == m && wf(m),
            },
    {
        if code == 0 {
            self.running = false;
            self.err_code = 0;
            Some(Ok(()))
        } else if code == 1 {
            self.op_new(ops)
        } else if code == 2 {
            self.op_pshprm(ops)
        } else if code == 3 {
            self.op_dup()
        } else if code == 9 {
            self.op_arith(false)
        } else if code == 10 {
            self.op_arith(true)
        } else if code == 11 {
            if ops.len() < 1 {
                return Some(Err((ERR_NO_OBJECT, "bytecode::JmpUnc")));
            }
            self.program_pointer = ops[0].direct_value;
            Some(Ok(()))
        } else if 12 <= code && code <= 17 {
            self.op_cmp(code)
        } else if code == 18 {
            let k: usize = if self.jump_trueth { 0 } else { 1 };
            if ops.len() <= k {
                return Some(Err((ERR_NO_OBJECT, "bytecode::JmpCnd")));
            }
            self.program_pointer = ops[k].direct_value;
            Some(Ok(()))
        } else if code == 19 {
            self.op_cal(ops)
        } else if code == 20 {
            Some(self.op_ret())
        } else if code == 21 {
            Some(self.op_retval(ops))
        } else {
            Some(Err((ERR_NO_OP_CODE, "bytecode::get_opcode")))
        }
    }
}


/// Reading `n` more bytes of the running function after those in `acc`, one after the
/// other (see [`read_byte_spec`]); the first that is missing stops the reading.
pub open spec fn read_bytes_spec(m: VmModel, n: nat, acc: Seq<u8>) -> (VmModel, VmResult<Seq<u8>>)
    decreases n,
{
    if n == 0 {
        (m, Ok(acc))
    } else {
        match read_byte_spec(m) {
            (m1, Err(e)) => (m1, Err(e)),
            (m1, Ok(b)) => read_bytes_spec(m1, (n - 1) as nat, acc.push(b)),
        }
    }
}

/// Reading an operand: a descriptor byte whose two low bits give its width and whose next
/// two bits give its address mode, then the width's bytes of its little-endian value.
pub open spec fn read_operand_spec(m: VmModel) -> (VmModel, VmResult<Operand>) {
    match read_byte_spec(m) {
        (m1, Err(e)) => (m1, Err(e)),
        (m1, Ok(desc)) => {
            let size = Size::spec_to_size(desc & 3);
            match read_bytes_spec(m1, size.spec_size(), Seq::empty()) {
                (m2, Err(e)) => (m2, Err(e)),
                (m2, Ok(b)) => (
                    m2,
                    Ok(Operand {
                        direct_value: le_read(b, 0, size.spec_size()) as u64,
                        true_value: None,
                        size,
                        address_mode: AddressMode::spec_to_mode((desc & 12) >> 2),
                    }),
                ),
            }
        },
    }
}

/// Reading `n` more operands after those in `acc`.
pub open spec fn read_operands_spec(m: VmModel, n: nat, acc: Seq<Operand>) -> (VmModel, VmResult<Seq<Operand>>)
    decreases n,
{
    if n == 0 {
        (m, Ok(acc))
    } else {
        match read_operand_spec(m) {
            (m1, Err(e)) => (m1, Err(e)),
            (m1, Ok(op)) => read_operands_spec(m1, (n - 1) as nat, acc.push(op)),
        }
    }
}

/// A read of the program moves only the program pointer.
pub open spec fn moves_pointer_only(m: VmModel, m2: VmModel) -> bool {
    m2 == VmModel { program_pointer: m2.program_pointer, ..m }
}

proof fn lemma_read_bytes(m: VmModel, n: nat, acc: Seq<u8>)
    ensures
        moves_pointer_only(m, read_bytes_spec(m, n, acc).0),
        read_bytes_spec(m, n, acc).1 matches Ok(b) ==> b.len() == acc.len() + n,
    decreases n,
{
    if n > 0 {
        match read_byte_spec(m) {
            (m1, Err(e)) => {},
            (m1, Ok(b)) => {
                lemma_read_bytes(m1, (n - 1) as nat, acc.push(b));
            },
        }
    }
}

proof fn lemma_read_operands(m: VmModel, n: nat, acc: Seq<Operand>)
    ensures
        moves_pointer_only(m, read_operands_spec(m, n, acc).0),
    decreases n,
{
    if n > 0 {
        match read_byte_spec(m) {
            (m1, Err(e)) => {},
            (m1, Ok(desc)) => {
                lemma_read_bytes(m1, Size::spec_to_size(desc & 3).spec_size(), Seq::empty());
            },
        }
        match read_operand_spec(m) {
            (m1, Err(e)) => {},
            (m1, Ok(op)) => {
                lemma_read_operands(m1, (n - 1) as nat, acc.push(op));
            },
        }
    }
}

/// One instruction of a run: two opcode bytes (the opcode, low byte first), the
/// instruction's operands, then the instruction itself; an error code other than 0 and
/// `u32::MAX` left behind stops the run. `None` where the machine would stop on an
/// overflow.
#[verifier::opaque]
pub open spec fn step_spec(m: VmModel) -> Option<(VmModel, VmEmpty)> {
    match read_byte_spec(m) {
        (m1, Err(e)) => Some((m1, Err(e))),
        (m1, Ok(b0)) => match read_byte_spec(m1) {
            (m2, Err(e)) => Some((m2, Err(e))),
            (m2, Ok(b1)) => {
                let code = (b0 + 256 * b1) as u16;
                if !known_op(code) {
                    Some((m2, Err((ERR_NO_OP_CODE, "bytecode::get_opcode"))))
                } else {
                    match read_operands_spec(m2, op_count(code) as nat, Seq::empty()) {
                        (m3, Err(e)) => Some((m3, Err(e))),
                        (m3, Ok(ops)) => match exec_spec(m3, code, ops) {
                            None => None,
                            Some((m4, Err(e))) => Some((m4, Err(e))),
                            Some((m4, Ok(_))) => if m4.err_code != u32::MAX && m4.err_code != 0 {
                                Some((m4, Err((m4.err_code, "vm_state::run"))))
                            } else {
                                Some((m4, Ok(())))
                            },
                        },
                    }
                }
            },
        },
    }
}

/// How a run ended.
#[derive(Debug, PartialEq)]
pub enum RunEnd {
    /// The machine stopped running, with the run's result.
    Finished(VmEmpty),
    /// The next instruction would overflow a count; the machine's state is unspecified.
    WouldPanic,
    /// The machine was still running after the most instructions a run takes.
    OutOfSteps,
}

/// Running instructions while the machine runs, at most `fuel` of them: when it stops,
/// the run succeeds if the error code is 0 and otherwise fails with
/// `ERR_PROGRAM_SHUT`; an instruction's error ends the run with that error.
pub open spec fn run_spec(m: VmModel, fuel: nat) -> (VmModel, RunEnd)
    decreases fuel,
{
    if !m.running {
        (m, RunEnd::Finished(if m.err_code != 0 { Err((ERR_PROGRAM_SHUT, "vm_state::run")) } else { Ok(()) }))
    } else if fuel == 0 {
        (m, RunEnd::OutOfSteps)
    } else {
        match step_spec(m) {
            None => (m, RunEnd::WouldPanic),
            Some((m1, Err(e))) => (m1, RunEnd::Finished(Err(e))),
            Some((m1, Ok(_))) => run_spec(m1, (fuel - 1) as nat),
        }
    }
}

spec fn bytes_view(r: VmResult<Vec<u8>>) -> VmResult<Seq<u8>> {
    match r {
        Ok(v) => Ok(v@),
        Err(e) => Err(e),
    }
}

spec fn ops_view(r: VmResult<Vec<Operand>>) -> VmResult<Seq<Operand>> {
    match r {
        Ok(v) => Ok(v@),
        Err(e) => Err(e),
    }
}

impl VMState {
    /// Reads `n` bytes of the running function (see [`read_bytes_spec`]).
    fn read_program_bytes(&mut self, n: u8) -> (r: VmResult<Vec<u8>>)
        ensures
            (final(self)@, bytes_view(r)) == read_bytes_spec(old(self)@, n as nat, Seq::empty()),
    {
        let mut acc: Vec<u8> = Vec::new();
        let mut k: u8 = 0;
        while k < n
            invariant
                k <= n,
                read_bytes_spec(self@, (n - k) as nat, acc@) == read_bytes_spec(old(self)@, n as nat, Seq::empty()),
            decreases n - k,
        {
            let b = match self.read_program_byte() {
                Ok(b) => b,
                Err(e) => return Err(e),
            };
            acc.push(b);
            k += 1;
        }
        Ok(acc)
    }

    /// Reads one operand (see [`read_operand_spec`]).
    fn read_operand(&mut self) -> (r: VmResult<Operand>)
        ensures
            (final(self)@, r) == read_operand_spec(old(self)@),
    {
        let desc_byte = match self.read_program_byte() {
            Ok(b) => b,
            Err(e) => return Err(e),
        };
        let size = Size::to_size(desc_byte & 0b11);
        let mode_bits = (desc_byte & 0b1100) >> 2;
        let address_mode = AddressMode::to_mode(mode_bits);
        let n = size.get_size();
        let ghost m1 = self@;
        let bytes = match self.read_program_bytes(n) {
            Ok(b) => b,
            Err(e) => return Err(e),
        };
        proof {
            lemma_read_bytes(m1, n as nat, Seq::empty());
        }
        let direct_value = read_le(&bytes, 0, n as usize);
        Ok(Operand { direct_value, true_value: None, size, address_mode })
    }

    /// Reads `count` operands (see [`read_operands_spec`]).
    fn read_operands(&mut self, count: u8) -> (r: VmResult<Vec<Operand>>)
        ensures
            (final(self)@, ops_view(r)) == read_operands_spec(old(self)@, count as nat, Seq::empty()),
    {
        let mut operands: Vec<Operand> = Vec::new();
        let mut k: u8 = 0;
        while k < count
            invariant
                k <= count,
                read_operands_spec(self@, (count - k) as nat, operands@) == read_operands_spec(old(self)@, count as nat, Seq::empty()),
            decreases count - k,
        {
            let op = match self.read_operand() {
                Ok(op) => op,
                Err(e) => return Err(e),
            };
            operands.push(op);
            k += 1;
        }
        Ok(operands)
    }

    /// Runs one instruction (see [`step_spec`]).
    fn step(&mut self) -> (r: Option<VmEmpty>)
        requires
            wf(old(self)@),
        ensures
            match step_spec(old(self)@) {
                None => r is None,
                Some((m, e)) => r == Some(e) && final(self)@ == m && wf(m),
            },
    {
        reveal(step_spec);
        let b0 = match self.read_program_byte() {
            Ok(b) => b,
            Err(e) => return Some(Err(e)),
        };
        let b1 = match self.read_program_byte() {
            Ok(b) => b,
            Err(e) => return Some(Err(e)),
        };
        let mut op_code_value: u16 = b0 as u16;
        op_code_value |= (b1 as u16) << 8;
        assert((b0 as u16) | ((b1 as u16) << 8u16) == b0 + 256 * b1) by (bit_vector);
        let op_code = match get_opcode(op_code_value) {
            Ok(o) => o,
            Err(e) => return Some(Err(e)),
        };
        let ghost m2 = self@;
        proof {
            lemma_read_operands(m2, op_code.count as nat, Seq::empty());
        }
        let operands = match self.read_operands(op_code.count) {
            Ok(o) => o,
            Err(e) => return Some(Err(e)),
        };
        match self.execute(op_code.code, &operands) {
            None => return None,
            Some(Err(e)) => return Some(Err(e)),
            Some(Ok(())) => {},
        }
        if self.err_code != u32::MAX && self.err_code != 0 {
            return Some(Err((self.err_code, "vm_state::run")));
        }
        Some(Ok(()))
    }

    /// Runs the current function from its start, one instruction after another, while
    /// the machine runs (see [`run_spec`], here with `u64::MAX` instructions at most).
    pub fn run(&mut self) -> (r: RunEnd)
        requires
            wf(old(self)@),
        ensures
            ({
                let start = VmModel { program_pointer: 0, running: true, ..old(self)@ };
                match run_spec(start, u64::MAX as nat) {
                    (_, RunEnd::WouldPanic) => r == RunEnd::WouldPanic,
                    (m, e) => r == e && final(self)@ == m && wf(m),
                }
            }),
    {
        self.program_pointer = 0;
        self.running = true;
        let ghost start = self@;
        let mut fuel: u64 = u64::MAX;
        while self.running
            invariant
                wf(self@),
                start == (VmModel { program_pointer: 0, running: true, ..old(self)@ }),
                run_spec(self@, fuel as nat) == run_spec(start, u64::MAX as nat),
            decreases fuel,
        {
            if fuel == 0 {
                return RunEnd::OutOfSteps;
            }
            match self.step() {
                None => return RunEnd::WouldPanic,
                Some(Err(e)) => return RunEnd::Finished(Err(e)),
                Some(Ok(())) => {},
            }
            fuel = fuel - 1;
        }
        if self.err_code != 0 {
            return RunEnd::Finished(Err((ERR_PROGRAM_SHUT, "vm_state::run")));
        }
        RunEnd::Finished(Ok(()))
    }

    /// Adds `func` to the program as a function with no arguments and no result, makes it
    /// the current function and runs it (see [`VMState::run`]). A function longer than the
    /// machine's memory is refused as [`VMState::write_function`] refuses it.
    pub fn run_program(&mut self, func: Vec<u8>) -> (r: RunEnd)
        requires
            wf(old(self)@),
        ensures
            old(self)@.max_memory < func@.len() ==> final(self)@ == old(self)@ && r
                == RunEnd::Finished(Err((ERR_OOM, "vm_state::write_function"))),
            old(self)@.max_memory >= func@.len() && old(self)@.allocated_size + func@.len()
                > u64::MAX ==> r == RunEnd::WouldPanic,
            old(self)@.max_memory >= func@.len() && old(self)@.allocated_size + func@.len()
                <= u64::MAX ==> exists|f: Function|
                f.arg_type@.len() == 0 && f.ret_type is None && f.function@ == func@ && ({
                    let start = VmModel {
                        program: old(self)@.program.push(f),
                        allocated_size: (old(self)@.allocated_size + func@.len()) as u64,
                        function_pointer: old(self)@.program.len() as u64,
                        program_pointer: 0,
                        running: true,
                        ..old(self)@
                    };
                    match run_spec(start, u64::MAX as nat) {
                        (_, RunEnd::WouldPanic) => r == RunEnd::WouldPanic,
                        (m, e) => r == e && final(self)@ == m && wf(m),
                    }
                }),
    {
        if func.len() as u64 <= self.max_memory && self.allocated_size > u64::MAX - func.len() as u64 {
            return RunEnd::WouldPanic;
        }
        let f = Function::new(Vec::new(), None, func);
        let ghost fg = f;
        let loc = match self.write_function(f) {
            Ok(l) => l,
            Err(e) => return RunEnd::Finished(Err(e)),
        };
        self.function_pointer = loc;
        let r = self.run();
        assert(fg.arg_type@.len() == 0 && fg.ret_type is None && fg.function@ == func@);
        r
    }
}


/// Writing data no longer than an object into it succeeds, and the object then starts
/// with that data; nothing else changes.
pub proof fn lemma_write_then_read(m: VmModel, index: u32, data: Seq<u8>)
    requires
        wf(m),
        live(m, index as int),
        data.len() <= obj_at(m, index as int).data.len(),
    ensures
        write_spec(m, index, data).1 is Ok,
        live(write_spec(m, index, data).0, index as int),
        obj_at(write_spec(m, index, data).0, index as int).data.take(data.len() as int) == data,
        obj_at(write_spec(m, index, data).0, index as int).data.len() == obj_at(m, index as int).data.len(),
        forall|j: int| 0 <= j < m.objects.len() && j != index ==> #[trigger] write_spec(m, index, data).0.objects[j] == m.objects[j],
        write_spec(m, index, data).0.stack == m.stack,
        write_spec(m, index, data).0.allocated_size == m.allocated_size,
{
    let d = obj_at(write_spec(m, index, data).0, index as int).data;
    assert(d.take(data.len() as int) =~= data);
}

/// Adding a reference to an object and dropping it again gives back the same machine.
pub proof fn lemma_inc_then_dec(m: VmModel, index: u32)
    requires
        wf(m),
        live(m, index as int),
        obj_at(m, index as int).references < u32::MAX,
    ensures
        dec_spec(inc_spec(m, index).0, index).0 == m,
{
    let o = obj_at(m, index as int);
    assert(dec_spec(inc_spec(m, index).0, index).0.objects =~= m.objects);
}

/// Pushing an object and popping the stack gives back the object and the same machine,
/// with or without the extra reference.
pub proof fn lemma_push_then_pop(m: VmModel, object: u32, counted: bool)
    requires
        wf(m),
        live(m, object as int),
        push_ok(m, object, counted),
    ensures
        push_spec(m, object, counted).1 is Ok,
        pop_spec(push_spec(m, object, counted).0, counted) == (m, Ok::<u32, VmError>(object)),
{
    let m1 = push_spec(m, object, counted).0;
    assert(m1.stack.drop_last() =~= m.stack);
    if counted {
        lemma_inc_then_dec(m, object);
        assert(VmModel { stack: m1.stack.drop_last(), ..m1 } == inc_spec(m, object).0);
    } else {
        assert(VmModel { stack: m1.stack.drop_last(), ..m1 } == m);
    }
}

/// A type registered under a new name is the only one found under that name, at the end
/// of the list.
pub proof fn lemma_registered_type_found(m: VmModel, t: TypeModel)
    requires
        wf(m),
        !has_id(m.types, t.id),
    ensures
        has_id(m.types.push(t), t.id),
        forall|i: int| 0 <= i < m.types.len() + 1 && (#[trigger] m.types.push(t)[i]).id == t.id
            ==> i == m.types.len(),
{
    assert(m.types.push(t)[m.types.len() as int] == t);
}

/// Freeing an object that was just created gives back its allocation and leaves its slot
/// empty: the machine is as before, except for one more empty slot at the end when the
/// object needed a new slot.
pub proof fn lemma_new_then_release(m: VmModel, ot: u32)
    requires
        wf(m),
        ot < m.types.len(),
        new_object_ok(m, ot),
        new_object_spec(m, ot).1 is Ok,
    ensures
        ({
            let k = new_object_spec(m, ot).1.unwrap();
            let freed = dec_spec(new_object_spec(m, ot).0, k).0;
            &&& freed.allocated_size == m.allocated_size
            &&& freed.objects == if k < m.objects.len() { m.objects } else { m.objects.push(None) }
            &&& freed.stack == m.stack
            &&& freed.types == m.types
        }),
{
    let k = new_object_spec(m, ot).1.unwrap();
    let freed = dec_spec(new_object_spec(m, ot).0, k).0;
    lemma_free_from_empty(m.objects, 0);
    if (k as int) < m.objects.len() {
        assert(freed.objects =~= m.objects);
    } else {
        assert(freed.objects =~= m.objects.push(None));
    }
}


/// Eight bytes that are the big-endian bytes of `v` read back, most significant first, as `v`.
pub proof fn lemma_be_read_bytes(s: Seq<u8>, start: int, v: u64)
    requires
        0 <= start,
        start + 8 <= s.len(),
        s.subrange(start, start + 8) == be_bytes_of(v),
    ensures
        be_read(s, start, 8) == v,
{
    reveal_with_fuel(be_read, 9);
    let w = s.subrange(start, start + 8);
    assert(w[0] == s[start + 0] && w[1] == s[start + 1] && w[2] == s[start + 2] && w[3] == s[start + 3]);
    assert(w[4] == s[start + 4] && w[5] == s[start + 5] && w[6] == s[start + 6] && w[7] == s[start + 7]);
    assert(s[start + 0] == le_byte(v, 7));
    assert(s[start + 1] == le_byte(v, 6));
    assert(s[start + 2] == le_byte(v, 5));
    assert(s[start + 3] == le_byte(v, 4));
    assert(s[start + 4] == le_byte(v, 3));
    assert(s[start + 5] == le_byte(v, 2));
    assert(s[start + 6] == le_byte(v, 1));
    assert(s[start + 7] == le_byte(v, 0));
    assert(v == ((((((le_byte(v, 7) * 256 + le_byte(v, 6)) * 256 + le_byte(v, 5)) * 256 + le_byte(v, 4))
        * 256 + le_byte(v, 3)) * 256 + le_byte(v, 2)) * 256 + le_byte(v, 1)) * 256 + le_byte(v, 0))
        by (bit_vector);
}

/// A call that succeeds puts below the function's arguments a live call record holding
/// the caller's program, base and function pointers, points the base pointer at the first
/// argument and starts the function; for a function without arguments, a return right
/// after it restores the three pointers, the stack and the allocation.
pub proof fn lemma_call_then_return(m: VmModel, ops: Seq<Operand>)
    requires
        wf(m),
        cal_spec(m, ops) matches Some((_, r)) && r is Ok,
    ensures
        ({
            let f = ops[0].direct_value;
            let at = m.stack.len() - m.program[f as int].arg_type@.len();
            let m1 = cal_spec(m, ops).unwrap().0;
            let rec = m1.stack[at];
            &&& 0 <= at <= m.stack.len()
            &&& m1.stack == m.stack.insert(at, rec)
            &&& live(m1, rec as int)
            &&& obj_at(m1, rec as int).object_type == PRIM_FN_RT
            &&& obj_at(m1, rec as int).data == call_record(m.program_pointer, m.base_pointer, m.function_pointer)
            &&& m1.base_pointer == at + 1
            &&& m1.program_pointer == 0
            &&& m1.function_pointer == f
            &&& m.program[f as int].arg_type@.len() == 0 ==> {
                let (m2, r2) = ret_spec(m1);
                &&& r2 is Ok
                &&& m2.program_pointer == m.program_pointer
                &&& m2.base_pointer == m.base_pointer
                &&& m2.function_pointer == m.function_pointer
                &&& m2.stack == m.stack
                &&& m2.allocated_size == m.allocated_size
            }
        }),
{
    let f = ops[0].direct_value;
    let at = m.stack.len() - m.program[f as int].arg_type@.len();
    let record = call_record(m.program_pointer, m.base_pointer, m.function_pointer);
    let (mb, k) = new_object_spec(m, PRIM_FN_RT);
    let obj = k.unwrap();
    let (mc, _) = write_spec(mb, obj, record);
    let m1 = cal_spec(m, ops).unwrap().0;
    assert(m.types[4] == default_type(4));
    lemma_free_from_empty(m.objects, 0);
    let o = obj_at(mc, obj as int);
    assert(o.data =~= record);
    assert(m1.stack[at] == obj);
    if m.program[f as int].arg_type@.len() == 0 {
        assert(o.data.subrange(0, 8) =~= be_bytes_of(m.program_pointer));
        assert(o.data.subrange(8, 16) =~= be_bytes_of(m.base_pointer));
        assert(o.data.subrange(16, 24) =~= be_bytes_of(m.function_pointer));
        lemma_be_read_bytes(o.data, 0, m.program_pointer);
        lemma_be_read_bytes(o.data, 8, m.base_pointer);
        lemma_be_read_bytes(o.data, 16, m.function_pointer);
        let (mp, _) = pop_spec(m1, false);
        assert(m1.stack =~= m.stack.push(obj));
        assert(mp.stack =~= m.stack);
    }
}

proof fn lemma_popn(m: VmModel, below: Seq<u32>, vals: Seq<u32>, acc: Seq<u32>)
    requires
        m.stack == below + vals,
        forall|i: int| 0 <= i < vals.len() ==> live(m, #[trigger] vals[i] as int),
    ensures
        popn_spec(m, vals.len(), acc) == (VmModel { stack: below, ..m }, Ok::<Seq<u32>, VmError>(vals + acc)),
    decreases vals.len(),
{
    if vals.len() == 0 {
        assert(m.stack =~= below);
        assert(vals + acc =~= acc);
    } else {
        let o = vals.last();
        assert(m.stack.last() == o);
        let m1 = VmModel { stack: m.stack.drop_last(), ..m };
        assert(m1.stack =~= below + vals.drop_last());
        assert(live(m1, o as int));
        assert forall|i: int| 0 <= i < vals.drop_last().len() implies live(m1, #[trigger] vals.drop_last()[i] as int) by {
            assert(vals.drop_last()[i] == vals[i]);
        }
        lemma_popn(m1, below, vals.drop_last(), seq![o] + acc);
        assert(vals.drop_last() + (seq![o] + acc) =~= vals + acc);
    }
}

/// Returning the top `n` entries of a stack that holds, under them, a call record: they
/// are put back, in their order, on the stack as it was under the record; the program,
/// base and function pointers saved in the record come back, and the record loses the
/// stack's reference.
pub proof fn lemma_return_values(
    m: VmModel,
    ops: Seq<Operand>,
    below: Seq<u32>,
    rec: u32,
    vals: Seq<u32>,
    pp: u64,
    bp: u64,
    fp: u64,
)
    requires
        wf(m),
        m.stack == below.push(rec) + vals,
        ops.len() >= 1,
        ops[0].direct_value == vals.len(),
        forall|i: int| 0 <= i < vals.len() ==> live(m, #[trigger] vals[i] as int),
        live(m, rec as int),
        obj_at(m, rec as int).object_type == PRIM_FN_RT,
        obj_at(m, rec as int).data == call_record(pp, bp, fp),
    ensures
        ({
            let (m2, r) = retval_spec(m, ops);
            let released = dec_spec(VmModel { stack: below, ..m }, rec).0;
            &&& r is Ok
            &&& m2.stack == below + vals
            &&& m2.program_pointer == pp
            &&& m2.base_pointer == bp
            &&& m2.function_pointer == fp
            &&& m2.objects == released.objects
            &&& m2.allocated_size == released.allocated_size
        }),
{
    lemma_popn(m, below.push(rec), vals, Seq::empty());
    assert(vals + Seq::<u32>::empty() =~= vals);
    let m1 = VmModel { stack: below.push(rec), ..m };
    let d = obj_at(m, rec as int).data;
    assert(d.subrange(0, 8) =~= be_bytes_of(pp));
    assert(d.subrange(8, 16) =~= be_bytes_of(bp));
    assert(d.subrange(16, 24) =~= be_bytes_of(fp));
    lemma_be_read_bytes(d, 0, pp);
    lemma_be_read_bytes(d, 8, bp);
    lemma_be_read_bytes(d, 16, fp);
    assert(m1.stack.drop_last() =~= below);
}

/// The primitive `PshPrm` pushes reads back, when popped, as its operand's value cut to
/// the operand's width, with the primitive type of that width.
pub proof fn lemma_pshprm_reads_back(m: VmModel, ops: Seq<Operand>)
    requires
        wf(m),
        pshprm_spec(m, ops) matches Some((_, r)) && r is Ok,
    ensures
        prim_spec(pshprm_spec(m, ops).unwrap().0).1 == Ok::<(u64, u32), VmError>((
            truncate(ops[0].direct_value, ops[0].size.spec_size()),
            prim_index(ops[0].size),
        )),
{
    let n = ops[0].size.spec_size();
    let v = ops[0].direct_value;
    let ty = prim_index(ops[0].size);
    assert(m.types[ty as int] == default_type(ty as int));
    let (ma, k) = new_object_spec(m, ty);
    let obj = k.unwrap();
    lemma_free_from_empty(m.objects, 0);
    let (mb, _) = write_spec(ma, obj, le_bytes_of(v, n));
    let o = obj_at(mb, obj as int);
    assert(o.data =~= le_bytes_of(v, n));
    assert(le_store(zeros(n), 0, v, n) =~= le_bytes_of(v, n));
    lemma_le_roundtrip(zeros(n), 0, v, n);
    assert(mb.types[ty as int] == default_type(ty as int));
}


/// An `End` instruction (opcode 0, two zero bytes) at the program pointer stops the
/// machine and the run succeeds.
pub proof fn lemma_end_finishes_run(m: VmModel, fuel: nat)
    requires
        wf(m),
        m.running,
        fuel >= 1,
        m.function_pointer < m.program.len(),
        m.program_pointer + 2 <= m.program[m.function_pointer as int].function@.len(),
        m.program[m.function_pointer as int].function@[m.program_pointer as int] == 0,
        m.program[m.function_pointer as int].function@[m.program_pointer + 1] == 0,
        m.program_pointer + 2 <= u64::MAX,
    ensures
        run_spec(m, fuel) == (
            VmModel { program_pointer: (m.program_pointer + 2) as u64, running: false, err_code: 0, ..m },
            RunEnd::Finished(Ok(())),
        ),
{
    reveal(step_spec);
    let m1 = VmModel { program_pointer: (m.program_pointer + 1) as u64, ..m };
    let m2 = VmModel { program_pointer: (m.program_pointer + 2) as u64, ..m };
    assert(read_byte_spec(m) == (m1, Ok::<u8, VmError>(0)));
    assert(read_byte_spec(m1) == (m2, Ok::<u8, VmError>(0)));
    assert(read_operands_spec(m2, 0, Seq::empty()) == (m2, Ok::<Seq<Operand>, VmError>(Seq::empty())));
    let m3 = VmModel { running: false, err_code: 0, ..m2 };
    assert(exec_spec(m2, 0, Seq::empty()) == Some((m3, Ok::<(), VmError>(()))));
    assert(step_spec(m) == Some((m3, Ok::<(), VmError>(()))));
    assert(run_spec(m3, (fuel - 1) as nat) == (m3, RunEnd::Finished(Ok(()))));
}

/// The value of the primitive object `o`: its bytes read little-endian, as a `u64`.
pub open spec fn prim_value(o: ObjModel) -> u64 {
    le_read(o.data, 0, o.data.len()) as u64
}

/// The comparisons take the top primitive x and the one below it y off the stack and set
/// the jump flag to: x == y for CmpEq (12), x < y for CmpLs (13), x > y for CmpGr (14),
/// x != y for CmpNe (15), x <= y for CmpLsEq (16) and x >= y for CmpGrEq (17); x and y are
/// the little-endian values of the two objects at the top of the stack.
pub proof fn lemma_comparisons(m: VmModel, code: u16, ops: Seq<Operand>)
    requires
        wf(m),
        12 <= code <= 17,
        prim_spec(m).1 is Ok,
        prim_spec(prim_spec(m).0).1 is Ok,
    ensures
        ({
            let x = prim_spec(m).1->Ok_0.0;
            let m1 = prim_spec(m).0;
            let y = prim_spec(m1).1->Ok_0.0;
            let m2 = prim_spec(m1).0;
            let flag = if code == 12 {
                x == y
            } else if code == 13 {
                x < y
            } else if code == 14 {
                x > y
            } else if code == 15 {
                x != y
            } else if code == 16 {
                x <= y
            } else {
                x >= y
            };
            &&& m.stack.len() >= 2
            &&& x == prim_value(obj_at(m, m.stack[m.stack.len() - 1] as int))
            &&& y == prim_value(obj_at(m, m.stack[m.stack.len() - 2] as int))
            &&& m2.stack == m.stack.subrange(0, m.stack.len() - 2)
            &&& exec_spec(m, code, ops) == Some((VmModel { jump_trueth: flag, ..m2 }, Ok::<(), VmError>(())))
        }),
{
    let (ma, r) = pop_spec(m, false);
    let a = r->Ok_0;
    let mb = dec_spec(ma, a).0;
    let (mc, r2) = pop_spec(mb, false);
    let b = r2->Ok_0;
    assert(ma.stack =~= m.stack.drop_last());
    assert(live(ma, b as int));
    if b != a {
        assert(obj_at(mb, b as int) == obj_at(ma, b as int));
    } else {
        assert(obj_at(mb, b as int).data == obj_at(ma, b as int).data);
    }
    assert(mc.stack =~= m.stack.subrange(0, m.stack.len() - 2));
}

/// Whether the objects at `addrs` fit the nested types of the struct type `set_ty` position
/// by position: there are no more of them than nested types, each exists, and the type of
/// the `k`-th has the name of the struct's `k`-th nested type.
pub open spec fn fields_match(types: Seq<TypeModel>, objects: Seq<Option<ObjModel>>, set_ty: TypeModel, addrs: Seq<u32>) -> bool {
    &&& addrs.len() <= set_ty.types.len()
    &&& forall|k: int| 0 <= k < addrs.len() ==> {
        let a = #[trigger] addrs[k];
        &&& 0 <= a < objects.len()
        &&& objects[a as int] is Some
        &&& types[objects[a as int].unwrap().object_type as int].id == types[set_ty.types[k] as int].id
    }
}

/// The bytes a field contributes: the four little-endian bytes of the object's index when
/// its type is passed by reference, its own bytes when passed by value.
pub open spec fn field_bytes(types: Seq<TypeModel>, objects: Seq<Option<ObjModel>>, a: u32) -> Seq<u8> {
    let o = objects[a as int].unwrap();
    if types[o.object_type as int].pass_by == PassBy::Reference {
        le32(a)
    } else {
        o.data
    }
}

/// The fields' bytes one after the other.
pub open spec fn fields_concat(types: Seq<TypeModel>, objects: Seq<Option<ObjModel>>, addrs: Seq<u32>) -> Seq<u8>
    decreases addrs.len(),
{
    if addrs.len() == 0 {
        Seq::empty()
    } else {
        fields_concat(types, objects, addrs.drop_last()) + field_bytes(types, objects, addrs.last())
    }
}

proof fn lemma_typed_bytes_from(
    types: Seq<TypeModel>,
    objects: Seq<Option<ObjModel>>,
    set_ty: TypeModel,
    addrs: Seq<u32>,
    k: nat,
)
    requires
        fields_match(types, objects, set_ty, addrs),
        k <= addrs.len(),
    ensures
        typed_bytes_in(types, objects, set_ty, addrs, k, fields_concat(types, objects, addrs.take(k as int)))
            == Ok::<Seq<u8>, VmError>(fields_concat(types, objects, addrs)),
    decreases addrs.len() - k,
{
    if k >= addrs.len() {
        assert(addrs.take(k as int) =~= addrs);
    } else {
        let a = addrs[k as int];
        assert(addrs.take(k as int + 1).drop_last() =~= addrs.take(k as int));
        assert(addrs.take(k as int + 1).last() == a);
        lemma_typed_bytes_from(types, objects, set_ty, addrs, k + 1);
    }
}

/// Gathering a struct's bytes checks the `k`-th object against the struct's `k`-th nested
/// type: objects that fit the nested types position by position (see [`fields_match`])
/// give the fields' bytes in order.
pub proof fn lemma_fields_gathered(
    types: Seq<TypeModel>,
    objects: Seq<Option<ObjModel>>,
    set_ty: TypeModel,
    addrs: Seq<u32>,
)
    requires
        fields_match(types, objects, set_ty, addrs),
    ensures
        typed_bytes_in(types, objects, set_ty, addrs, 0, Seq::empty())
            == Ok::<Seq<u8>, VmError>(fields_concat(types, objects, addrs)),
{
    assert(addrs.take(0) =~= Seq::<u32>::empty());
    lemma_typed_bytes_from(types, objects, set_ty, addrs, 0);
}

/// Filling a struct: the `k`-th object is checked against the struct's `k`-th nested
/// type. When the objects fit the nested types position by position (see
/// [`fields_match`]), gathering their bytes succeeds with the fields' bytes in order;
/// writing them into the struct then succeeds exactly when they make up its size, and the
/// struct holds them; otherwise nothing changes and the write is refused.
pub proof fn lemma_write_typed_fields(m: VmModel, index: u32, addrs: Seq<u32>)
    requires
        wf(m),
        live(m, index as int),
        fields_match(m.types, m.objects, m.types[obj_at(m, index as int).object_type as int], addrs),
    ensures
        ({
            let set_ty = m.types[obj_at(m, index as int).object_type as int];
            let d = fields_concat(m.types, m.objects, addrs);
            let (m2, r) = write_typed_spec(m, index, addrs);
            &&& typed_bytes_in(m.types, m.objects, set_ty, addrs, 0, Seq::empty()) == Ok::<Seq<u8>, VmError>(d)
            &&& d.len() == set_ty.size ==> r is Ok && live(m2, index as int) && obj_at(m2, index as int).data == d
            &&& d.len() != set_ty.size ==> r == Err::<(), VmError>((ERR_OBJECT_WRITE, "vm_state::write_object_typed")) && m2 == m
        }),
{
    let set_ty = m.types[obj_at(m, index as int).object_type as int];
    lemma_fields_gathered(m.types, m.objects, set_ty, addrs);
    let d = fields_concat(m.types, m.objects, addrs);
    if d.len() == set_ty.size {
        assert(obj_wf(m.types, obj_at(m, index as int)));
        assert(d + zeros(0) =~= d);
    }
}

/// Jumps: JmpUnc (11) sets the program pointer to its operand; JmpCnd (18) to its first
/// operand when the jump flag is set and to its second otherwise. Nothing else changes.
pub proof fn lemma_jumps(m: VmModel, ops: Seq<Operand>)
    requires
        ops.len() >= 2,
    ensures
        exec_spec(m, 11, ops) == Some((VmModel { program_pointer: ops[0].direct_value, ..m }, Ok::<(), VmError>(()))),
        m.jump_trueth ==> exec_spec(m, 18, ops) == Some((VmModel { program_pointer: ops[0].direct_value, ..m }, Ok::<(), VmError>(()))),
        !m.jump_trueth ==> exec_spec(m, 18, ops) == Some((VmModel { program_pointer: ops[1].direct_value, ..m }, Ok::<(), VmError>(()))),
{
}

/// Add (9) and Sub (10) take the top primitive x and the one below it y off the stack and
/// push one new object: of the wider of their two types (y's on a tie), holding, cut to
/// that type's size, the little-endian bytes of x + y, or of y - x, wrapped modulo 2^64.
pub proof fn lemma_add_sub(m: VmModel, sub: bool)
    requires
        wf(m),
        prim_spec(m).1 is Ok,
        prim_spec(prim_spec(m).0).1 is Ok,
        arith_spec(m, sub) matches Some((_, r)) && r is Ok,
    ensures
        ({
            let (x, tx) = prim_spec(m).1->Ok_0;
            let m1 = prim_spec(m).0;
            let (y, ty) = prim_spec(m1).1->Ok_0;
            let m2 = prim_spec(m1).0;
            let m3 = arith_spec(m, sub).unwrap().0;
            let t = if m.types[tx as int].size <= m.types[ty as int].size { ty } else { tx };
            let value: int = if sub {
                (y - x + 0x1_0000_0000_0000_0000) % 0x1_0000_0000_0000_0000
            } else {
                (x + y) % 0x1_0000_0000_0000_0000
            };
            let top = m3.stack.last();
            &&& x == prim_value(obj_at(m, m.stack[m.stack.len() - 1] as int))
            &&& y == prim_value(obj_at(m, m.stack[m.stack.len() - 2] as int))
            &&& m3.stack == m.stack.subrange(0, m.stack.len() - 2).push(top)
            &&& live(m3, top as int)
            &&& obj_at(m3, top as int).object_type == t
            &&& obj_at(m3, top as int).data == trimmed(le_bytes_of(value as u64, 8), m.types[t as int].size as nat)
        }),
{
    lemma_comparisons(m, 12, Seq::empty());
    let (x, tx) = prim_spec(m).1->Ok_0;
    let m1 = prim_spec(m).0;
    let (y, ty) = prim_spec(m1).1->Ok_0;
    let m2 = prim_spec(m1).0;
    assert(m2.types == m.types);
    let t = if m.types[tx as int].size <= m.types[ty as int].size { ty } else { tx };
    let value: u64 = if sub {
        if y >= x { (y - x) as u64 } else { (y - x + 0x1_0000_0000_0000_0000) as u64 }
    } else {
        if x + y <= u64::MAX { (x + y) as u64 } else { (x + y - 0x1_0000_0000_0000_0000) as u64 }
    };
    let bytes = trimmed(le_bytes_of(value, 8), m2.types[t as int].size as nat);
    let (ma, k) = new_object_spec(m2, t);
    let obj = k->Ok_0;
    lemma_free_from_empty(m2.objects, 0);
    let (mb, _) = write_spec(ma, obj, bytes);
    assert(obj_at(mb, obj as int).data =~= bytes);
    let m3 = arith_spec(m, sub).unwrap().0;
    assert(m3.stack =~= m2.stack.push(obj));
}

/// Dup (3) on an object passed by value pushes a copy of it: the stack ends with a new
/// object of the same type and bytes, then the original on top. On an object passed by
/// reference it pushes the same index again, with one more reference.
pub proof fn lemma_dup(m: VmModel)
    requires
        wf(m),
        dup_spec(m) matches Some((_, r)) && r is Ok,
    ensures
        ({
            let m2 = dup_spec(m).unwrap().0;
            let n = m.stack.len() as int;
            let z = m.stack[n - 1];
            let o = obj_at(m, z as int);
            &&& n >= 1
            &&& m2.stack.len() == n + 1
            &&& m2.stack.subrange(0, n - 1) == m.stack.subrange(0, n - 1)
            &&& m2.stack[n] == z
            &&& live(m2, z as int)
            &&& live(m2, m2.stack[n - 1] as int)
            &&& m.types[o.object_type as int].pass_by == PassBy::Value ==> {
                let c = obj_at(m2, m2.stack[n - 1] as int);
                &&& m2.stack[n - 1] != z
                &&& c.object_type == o.object_type
                &&& c.data == o.data
                &&& obj_at(m2, z as int) == o
            }
            &&& m.types[o.object_type as int].pass_by == PassBy::Reference ==> m2.stack[n - 1] == z
                && obj_at(m2, z as int).references == o.references + 1
        }),
{
    let (m1, r) = pop_spec(m, false);
    let z = r->Ok_0;
    let o = obj_at(m1, z as int);
    assert(m1.stack =~= m.stack.drop_last());
    if m1.types[o.object_type as int].pass_by == PassBy::Reference {
    } else {
        let (m2, k) = new_object_spec(m1, o.object_type);
        let c = k->Ok_0;
        lemma_free_from_empty(m1.objects, 0);
        assert(obj_wf(m1.types, o));
        let (m3, _) = write_spec(m2, c, o.data);
        assert(obj_at(m3, c as int).data =~= o.data);
    }
}

} // verus!
