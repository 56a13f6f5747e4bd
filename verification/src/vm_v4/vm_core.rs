use vstd::prelude::*;
use crate::vm_v4::object::{PassBy, TypeModel, ObjectType, ObjModel, Object, zeros};
use crate::vm_v4::vm_state::{
    opt_view, nested_valid, obj_wf, obj_size, live_size, first_free, typed_bytes_in, le32,
    lemma_free_from, lemma_live_size_update, lemma_live_size_push,
    fields_match, fields_concat, lemma_fields_gathered,
};

verus! {

/// Mathematical picture of a [`VMState`].
pub struct CoreModel {
    pub types: Seq<TypeModel>,
    pub objects: Seq<Option<ObjModel>>,
    pub max_memory: u64,
    pub allocated_size: u64,
}

/// An object store: a list of types and slots holding reference-counted objects, with a
/// memory limit on what it allocates. Failures are reported as `false` or `None`.
#[derive(Debug)]
pub struct VMState {
    struct_ids: Vec<ObjectType>,
    objects: Vec<Option<Object>>,
    max_memory: u64,
    allocated_size: u64,
}

impl View for VMState {
    type V = CoreModel;

    closed spec fn view(&self) -> CoreModel {
        CoreModel {
            types: self.struct_ids@.map_values(|t: ObjectType| t@),
            objects: self.objects@.map_values(|o: Option<Object>| opt_view(o)),
            max_memory: self.max_memory,
            allocated_size: self.allocated_size,
        }
    }
}

/// The store's invariant: nested types are known, every held object is well formed, and
/// the allocation count covers every held object.
pub open spec fn core_wf(c: CoreModel) -> bool {
    &&& nested_valid(c.types)
    &&& c.objects.len() <= u32::MAX
    &&& forall|i: int| 0 <= i < c.objects.len() && #[trigger] c.objects[i] is Some
        ==> obj_wf(c.types, c.objects[i].unwrap())
    &&& live_size(c.objects) <= c.allocated_size
}

/// Slot `i` holds an object.
pub open spec fn core_live(c: CoreModel, i: int) -> bool {
    0 <= i < c.objects.len() && c.objects[i] is Some
}

/// The object in slot `i`.
pub open spec fn core_obj(c: CoreModel, i: int) -> ObjModel {
    c.objects[i].unwrap()
}

/// `c` with the object `o` in slot `i`.
pub open spec fn core_with(c: CoreModel, i: int, o: Option<ObjModel>) -> CoreModel {
    CoreModel { objects: c.objects.update(i, o), ..c }
}

/// Placing object `o` as it is: in the first empty slot, or in a new slot at the end when
/// none is empty and the allocation stays under the memory limit; its type's size is added
/// to the allocation count. `None` when memory does not allow it.
pub open spec fn core_alloc_spec(c: CoreModel, o: ObjModel) -> (CoreModel, Option<u32>) {
    let k = first_free(c.objects);
    let size = c.types[o.object_type as int].size;
    if k < c.objects.len() {
        (
            CoreModel {
                objects: c.objects.update(k as int, Some(o)),
                allocated_size: (c.allocated_size + size) as u64,
                ..c
            },
            Some(k as u32),
        )
    } else if c.allocated_size + size < c.max_memory {
        (
            CoreModel {
                objects: c.objects.push(Some(o)),
                allocated_size: (c.allocated_size + size) as u64,
                ..c
            },
            Some(c.objects.len() as u32),
        )
    } else {
        (c, None)
    }
}

/// Placing `o` neither overflows the allocation count nor needs a slot index past
/// `u32::MAX`.
pub open spec fn core_alloc_ok(c: CoreModel, o: ObjModel) -> bool {
    let size = c.types[o.object_type as int].size;
    &&& c.allocated_size + size <= u64::MAX
    &&& (first_free(c.objects) == c.objects.len() && c.allocated_size + size < c.max_memory
        ==> c.objects.len() < u32::MAX)
}

/// Writing `data` into the object at `index`: its bytes are cleared, then `data` is laid
/// over them when it fits (data longer than the object leaves it cleared); the result is
/// true whenever the object exists.
pub open spec fn core_write_spec(c: CoreModel, index: u32, data: Seq<u8>) -> (CoreModel, bool) {
    if !core_live(c, index as int) {
        (c, false)
    } else {
        let o = core_obj(c, index as int);
        let bytes = if data.len() > o.data.len() {
            zeros(o.data.len())
        } else {
            data + zeros((o.data.len() - data.len()) as nat)
        };
        (core_with(c, index as int, Some(ObjModel { data: bytes, ..o })), true)
    }
}

/// Filling the struct at `index` from the objects at `addrs` (see [`typed_bytes_in`]);
/// the bytes must make up exactly the struct's size. False, and nothing changes, when any
/// of this fails.
pub open spec fn core_write_typed_spec(c: CoreModel, index: u32, addrs: Seq<u32>) -> (CoreModel, bool) {
    if !core_live(c, index as int) {
        (c, false)
    } else {
        let set_ty = c.types[core_obj(c, index as int).object_type as int];
        match typed_bytes_in(c.types, c.objects, set_ty, addrs, 0, Seq::empty()) {
            Err(_) => (c, false),
            Ok(d) => if d.len() != set_ty.size {
                (c, false)
            } else {
                (core_write_spec(c, index, d).0, true)
            },
        }
    }
}

/// One more reference to the object at `index`.
pub open spec fn core_inc_spec(c: CoreModel, index: u32) -> (CoreModel, bool) {
    if !core_live(c, index as int) {
        (c, false)
    } else {
        let o = core_obj(c, index as int);
        (core_with(c, index as int, Some(ObjModel { references: (o.references + 1) as u32, ..o })), true)
    }
}

/// One reference less to the object at `index`; the last one frees its slot and takes its
/// size off the allocation count.
pub open spec fn core_dec_spec(c: CoreModel, index: u32) -> (CoreModel, bool) {
    if !core_live(c, index as int) {
        (c, false)
    } else {
        let o = core_obj(c, index as int);
        if o.references - 1 == 0 {
            (
                CoreModel {
                    objects: c.objects.update(index as int, None),
                    allocated_size: (c.allocated_size - o.data.len()) as u64,
                    ..c
                },
                true,
            )
        } else {
            (core_with(c, index as int, Some(ObjModel { references: (o.references - 1) as u32, ..o })), true)
        }
    }
}

proof fn lemma_core_wf(c: CoreModel, c2: CoreModel)
    requires
        core_wf(c),
        c2.types == c.types,
        c2.objects.len() <= u32::MAX,
        forall|i: int| 0 <= i < c2.objects.len() && #[trigger] c2.objects[i] is Some
            ==> obj_wf(c2.types, c2.objects[i].unwrap()),
        live_size(c2.objects) <= c2.allocated_size,
    ensures
        core_wf(c2),
{
}

impl VMState {
    pub fn new(memory: u64) -> (vm: VMState)
        ensures
            core_wf(vm@),
            vm@ == (CoreModel { types: Seq::empty(), objects: Seq::empty(), max_memory: memory, allocated_size: 0 }),
    {
        let vm = VMState { struct_ids: Vec::new(), objects: Vec::new(), max_memory: memory, allocated_size: 0 };
        assert(vm@.types =~= Seq::empty());
        assert(vm@.objects =~= Seq::empty());
        vm
    }

    pub fn default() -> (vm: VMState)
        ensures
            core_wf(vm@),
            vm@ == (CoreModel { types: Seq::empty(), objects: Seq::empty(), max_memory: 1024, allocated_size: 0 }),
    {
        VMState::new(1024)
    }

    /// Registers a type and returns the number of types now known.
    pub fn new_type(&mut self, tpy: ObjectType) -> (r: u32)
        requires
            core_wf(old(self)@),
            forall|k: int| 0 <= k < tpy.types@.len() ==> tpy.types@[k] < old(self)@.types.len(),
        ensures
            core_wf(final(self)@),
            final(self)@ == (CoreModel { types: old(self)@.types.push(tpy@), ..old(self)@ }),
            r == (old(self)@.types.len() + 1) as u32,
    {
        let ghost t = tpy@;
        self.struct_ids.push(tpy);
        proof {
            let c = self@;
            let o = old(self)@;
            assert(c.types =~= o.types.push(t));
            assert(c.objects =~= o.objects);
            assert forall|i: int, k: int| 0 <= i < c.types.len() && 0 <= k < c.types[i].types.len()
                implies #[trigger] c.types[i].types[k] < c.types.len() by {
                if i < o.types.len() {
                    assert(o.types[i].types[k] < o.types.len());
                }
            }
            assert forall|i: int| 0 <= i < c.objects.len() && #[trigger] c.objects[i] is Some
                implies obj_wf(c.types, c.objects[i].unwrap()) by {
                assert(obj_wf(o.types, o.objects[i].unwrap()));
            }
        }
        self.struct_ids.len() as u32
    }

    /// The type at `index`, if there is one.
    pub fn get_type(&self, index: u32) -> (r: Option<&ObjectType>)
        ensures
            match r {
                Some(t) => index < self@.types.len() && t@ == self@.types[index as int],
                None => index >= self@.types.len(),
            },
    {
        if (index as usize) < self.struct_ids.len() {
            Some(&self.struct_ids[index as usize])
        } else {
            None
        }
    }

    /// Empties slot `i` and hands back what it held.
    fn take_slot(&mut self, i: usize) -> (o: Option<Object>)
        requires
            i < old(self).objects@.len(),
        ensures
            o == old(self).objects@[i as int],
            final(self).objects@ == old(self).objects@.update(i as int, None),
            final(self).struct_ids == old(self).struct_ids,
            final(self).max_memory == old(self).max_memory,
            final(self).allocated_size == old(self).allocated_size,
    {
        let mut o: Option<Object> = None;
        std::mem::swap(&mut o, &mut self.objects[i]);
        o
    }

    /// Places an object in the first empty slot, or in a new slot when none is empty and
    /// memory allows (see [`core_alloc_spec`]), and returns the slot's index.
    pub fn new_object_direct(&mut self, object: Object) -> (r: Option<u32>)
        requires
            core_wf(old(self)@),
            obj_wf(old(self)@.types, object@),
            core_alloc_ok(old(self)@, object@),
        ensures
            core_wf(final(self)@),
            (final(self)@, r) == core_alloc_spec(old(self)@, object@),
    {
        let ghost o = object@;
        let ghost c = self@;
        let mut count: usize = 0;
        while count < self.objects.len()
            invariant
                self@ == c,
                c == old(self)@,
                o == object@,
                core_wf(c),
                obj_wf(c.types, o),
                core_alloc_ok(c, o),
                self.struct_ids@.len() == c.types.len(),
                count <= c.objects.len(),
                self.objects@.len() == c.objects.len(),
                forall|j: int| 0 <= j < count ==> c.objects[j] is Some,
            decreases c.objects.len() - count,
        {
            assert(c.objects[count as int] == opt_view(self.objects@[count as int]));
            if self.objects[count].is_none() {
                proof {
                    lemma_free_from(c.objects, 0, count as nat);
                }
                let size = self.struct_ids[object.type_index() as usize].size;
                self.allocated_size = self.allocated_size + size as u64;
                self.objects.set(count, Some(object));
                proof {
                    assert(self@.objects =~= c.objects.update(count as int, Some(o)));
                    lemma_live_size_update(c.objects, count as int, Some(o));
                    lemma_core_wf(c, self@);
                }
                return Some(count as u32);
            }
            count += 1;
        }
        proof {
            lemma_free_from(c.objects, 0, c.objects.len());
        }
        let size = self.struct_ids[object.type_index() as usize].size as u64;
        if self.allocated_size + size < self.max_memory {
            self.allocated_size = self.allocated_size + size;
            self.objects.push(Some(object));
            proof {
                assert(self@.objects =~= c.objects.push(Some(o)));
                lemma_live_size_push(c.objects, Some(o));
                lemma_core_wf(c, self@);
            }
            return Some(self.objects.len() as u32 - 1);
        }
        None
    }

    /// Writes `data` into the object at `index` (see [`core_write_spec`]).
    pub fn write_object(&mut self, index: u32, data: Vec<u8>) -> (r: bool)
        requires
            core_wf(old(self)@),
        ensures
            core_wf(final(self)@),
            (final(self)@, r) == core_write_spec(old(self)@, index, data@),
    {
        let ghost c = self@;
        if index as usize >= self.objects.len() {
            return false;
        }
        let slot = self.take_slot(index as usize);
        assert(c.objects[index as int] == opt_view(slot));
        match slot {
            None => {
                self.objects.set(index as usize, None);
                assert(self@.objects =~= c.objects);
                false
            },
            Some(y) => {
                let mut y = y;
                y.clear_data();
                let _ = y.set_data(data);
                let ghost placed = y@;
                self.objects.set(index as usize, Some(y));
                proof {
                    assert(self@.objects =~= c.objects.update(index as int, Some(placed)));
                    assert(placed.data =~= core_write_spec(c, index, data@).0.objects[index as int].unwrap().data);
                    lemma_live_size_update(c.objects, index as int, Some(placed));
                    lemma_core_wf(c, self@);
                }
                true
            },
        }
    }

    /// Fills the struct at `index` from the objects at `objects` (see
    /// [`core_write_typed_spec`]).
    pub fn write_object_typed(&mut self, index: u32, objects: Vec<u32>) -> (r: bool)
        requires
            core_wf(old(self)@),
        ensures
            core_wf(final(self)@),
            (final(self)@, r) == core_write_typed_spec(old(self)@, index, objects@),
    {
        let ghost c = self@;
        let mut data: Vec<u8> = Vec::new();
        if index as usize >= self.objects.len() {
            return false;
        }
        assert(c.objects[index as int] == opt_view(self.objects@[index as int]));
        let set_ty: usize = match &self.objects[index as usize] {
            Some(z) => z.type_index() as usize,
            None => return false,
        };
        assert(obj_wf(c.types, core_obj(c, index as int)));
        let ghost st = c.types[set_ty as int];
        let mut k: usize = 0;
        while k < objects.len()
            invariant
                self@ == c,
                c == old(self)@,
                core_wf(c),
                self.struct_ids@.len() == c.types.len(),
                core_live(c, index as int),
                set_ty == core_obj(c, index as int).object_type,
                set_ty < c.types.len(),
                st == c.types[set_ty as int],
                k <= objects@.len(),
                typed_bytes_in(c.types, c.objects, st, objects@, k as nat, data@)
                    == typed_bytes_in(c.types, c.objects, st, objects@, 0, Seq::empty()),
            decreases objects@.len() - k,
        {
            let address = objects[k];
            if address as usize >= self.objects.len() {
                return false;
            }
            assert(c.objects[address as int] == opt_view(self.objects@[address as int]));
            let object = match &self.objects[address as usize] {
                Some(z) => z,
                None => return false,
            };
            assert(st == self.struct_ids@[set_ty as int]@);
            if k >= self.struct_ids[set_ty].types.len() {
                return false;
            }
            let want = self.struct_ids[set_ty].types[k];
            let have = object.type_index();
            assert(obj_wf(c.types, object@));
            assert(want < c.types.len());
            assert(c.types[want as int] == self.struct_ids@[want as int]@);
            assert(c.types[have as int] == self.struct_ids@[have as int]@);
            if !(self.struct_ids[have as usize].id == self.struct_ids[want as usize].id) {
                return false;
            }
            match self.struct_ids[have as usize].pass_by {
                PassBy::Reference => {
                    let ghost before = data@;
                    data.push((address & 0xFF) as u8);
                    data.push(((address & 0xFF00) >> 8) as u8);
                    data.push(((address & 0xFF0000) >> 16) as u8);
                    data.push(((address & 0xFF000000) >> 24) as u8);
                    assert(data@ =~= before + le32(address));
                },
                PassBy::Value => {
                    let bytes = object.get_data();
                    let ghost before = data@;
                    let mut j: usize = 0;
                    while j < bytes.len()
                        invariant
                            j <= bytes@.len(),
                            data@ == before + bytes@.take(j as int),
                        decreases bytes@.len() - j,
                    {
                        data.push(bytes[j]);
                        j += 1;
                        assert(data@ =~= before + bytes@.take(j as int));
                    }
                    assert(bytes@.take(bytes@.len() as int) =~= bytes@);
                },
            }
            k += 1;
        }
        assert(st == self.struct_ids@[set_ty as int]@);
        if data.len() != self.struct_ids[set_ty].size as usize {
            return false;
        }
        self.write_object(index, data);
        true
    }

    /// The bytes of the object at `index`, if it exists.
    pub fn read_object(&self, index: u32) -> (r: Option<&Vec<u8>>)
        requires
            index < self@.objects.len(),
        ensures
            match r {
                Some(d) => core_live(self@, index as int) && d@ == core_obj(self@, index as int).data,
                None => !core_live(self@, index as int),
            },
    {
        assert(self@.objects[index as int] == opt_view(self.objects@[index as int]));
        match &self.objects[index as usize] {
            Some(x) => Some(x.get_data()),
            None => None,
        }
    }

    /// Adds a reference to the object at `index` (see [`core_inc_spec`]).
    pub fn inc_object_count(&mut self, index: u32) -> (r: bool)
        requires
            core_wf(old(self)@),
            index < old(self)@.objects.len(),
            core_live(old(self)@, index as int) ==> core_obj(old(self)@, index as int).references < u32::MAX,
        ensures
            core_wf(final(self)@),
            (final(self)@, r) == core_inc_spec(old(self)@, index),
    {
        let ghost c = self@;
        let slot = self.take_slot(index as usize);
        assert(c.objects[index as int] == opt_view(slot));
        match slot {
            None => {
                self.objects.set(index as usize, None);
                assert(self@.objects =~= c.objects);
                false
            },
            Some(x) => {
                let mut x = x;
                let count = x.get_ref_count();
                x.set_ref_count(count + 1);
                let ghost placed = x@;
                self.objects.set(index as usize, Some(x));
                proof {
                    assert(self@.objects =~= c.objects.update(index as int, Some(placed)));
                    lemma_live_size_update(c.objects, index as int, Some(placed));
                    lemma_core_wf(c, self@);
                }
                true
            },
        }
    }

    /// Drops a reference to the object at `index`, freeing it with the last one (see
    /// [`core_dec_spec`]).
    pub fn dec_object_count(&mut self, index: u32) -> (r: bool)
        requires
            core_wf(old(self)@),
            index < old(self)@.objects.len(),
        ensures
            core_wf(final(self)@),
            (final(self)@, r) == core_dec_spec(old(self)@, index),
    {
        let ghost c = self@;
        let slot = self.take_slot(index as usize);
        assert(c.objects[index as int] == opt_view(slot));
        match slot {
            None => {
                self.objects.set(index as usize, None);
                assert(self@.objects =~= c.objects);
                false
            },
            Some(x) => {
                let mut x = x;
                assert(obj_wf(c.types, x@));
                let count = x.get_ref_count() - 1;
                proof {
                    lemma_live_size_update(c.objects, index as int, None);
                }
                if count <= 0 {
                    let size = self.struct_ids[x.type_index() as usize].size;
                    self.allocated_size = self.allocated_size - size as u64;
                    proof {
                        assert(self@.objects =~= c.objects.update(index as int, None));
                        lemma_core_wf(c, self@);
                    }
                    return true;
                }
                x.set_ref_count(count);
                let ghost placed = x@;
                self.objects.set(index as usize, Some(x));
                proof {
                    assert(self@.objects =~= c.objects.update(index as int, Some(placed)));
                    lemma_live_size_update(c.objects, index as int, Some(placed));
                    lemma_core_wf(c, self@);
                }
                true
            },
        }
    }
}

/// Filling a struct from objects that fit its nested types position by position (see
/// [`fields_match`]) succeeds exactly when their bytes make up the struct's size, and the
/// struct then holds the fields' bytes in order; otherwise it reports false and nothing
/// changes.
pub proof fn lemma_core_write_typed_fields(c: CoreModel, index: u32, addrs: Seq<u32>)
    requires
        core_wf(c),
        core_live(c, index as int),
        fields_match(c.types, c.objects, c.types[core_obj(c, index as int).object_type as int], addrs),
    ensures
        ({
            let set_ty = c.types[core_obj(c, index as int).object_type as int];
            let d = fields_concat(c.types, c.objects, addrs);
            let (c2, r) = core_write_typed_spec(c, index, addrs);
            &&& r == (d.len() == set_ty.size)
            &&& r ==> core_live(c2, index as int) && core_obj(c2, index as int).data == d
            &&& !r ==> c2 == c
        }),
{
    let set_ty = c.types[core_obj(c, index as int).object_type as int];
    lemma_fields_gathered(c.types, c.objects, set_ty, addrs);
    let d = fields_concat(c.types, c.objects, addrs);
    if d.len() == set_ty.size {
        assert(obj_wf(c.types, core_obj(c, index as int)));
        assert(d + zeros(0) =~= d);
    }
}

/// Writing data no longer than an object succeeds and the object then holds the data
/// followed by zeros up to its size; data that is too long leaves it all zeros. Its type,
/// count and every other slot are kept.
pub proof fn lemma_core_write_then_read(c: CoreModel, index: u32, data: Seq<u8>)
    requires
        core_live(c, index as int),
    ensures
        ({
            let o = core_obj(c, index as int);
            let (c2, r) = core_write_spec(c, index, data);
            let d = core_obj(c2, index as int).data;
            &&& r
            &&& core_live(c2, index as int)
            &&& d.len() == o.data.len()
            &&& data.len() <= o.data.len() ==> d.take(data.len() as int) == data
                && forall|k: int| data.len() <= k < d.len() ==> d[k] == 0
            &&& data.len() > o.data.len() ==> forall|k: int| 0 <= k < d.len() ==> d[k] == 0
            &&& core_obj(c2, index as int).object_type == o.object_type
            &&& core_obj(c2, index as int).references == o.references
            &&& forall|j: int| 0 <= j < c.objects.len() && j != index ==> c2.objects[j] == c.objects[j]
        }),
{
    let o = core_obj(c, index as int);
    let (c2, r) = core_write_spec(c, index, data);
    let d = core_obj(c2, index as int).data;
    if data.len() <= o.data.len() {
        assert(d.take(data.len() as int) =~= data);
    }
}

/// Adding a reference and then dropping one gives the store back as it was; dropping the
/// last reference empties the slot and takes the object's size off the allocation count.
pub proof fn lemma_core_inc_then_dec(c: CoreModel, index: u32)
    requires
        core_wf(c),
        core_live(c, index as int),
        core_obj(c, index as int).references < u32::MAX,
    ensures
        core_dec_spec(core_inc_spec(c, index).0, index) == (c, true),
        core_obj(c, index as int).references == 1 ==> core_dec_spec(c, index) == (
            CoreModel {
                objects: c.objects.update(index as int, None),
                allocated_size: (c.allocated_size - core_obj(c, index as int).data.len()) as u64,
                ..c
            },
            true,
        ),
{
    let o = core_obj(c, index as int);
    let c1 = core_inc_spec(c, index).0;
    assert(obj_wf(c.types, o));
    assert(core_obj(c1, index as int).references == o.references + 1);
    assert(core_dec_spec(c1, index).0.objects =~= c.objects);
}

} // verus!
