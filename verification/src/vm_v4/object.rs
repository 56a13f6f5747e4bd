use vstd::prelude::*;
use vstd::utf8::{encode_utf8, decode_utf8, valid_utf8, encode_utf8_valid_utf8, encode_utf8_decode_utf8};
use crate::vm_v4::vm_state::{VmError, VmResult, ERR_PROGRAM_READ, ERR_NO_TYPE};

verus! {

/// Whether a value of a type is copied (by value) or shared through its object index
/// (by reference).
#[derive(PartialEq, Eq, Structural, Debug, Clone, Copy)]
pub enum PassBy {
    Value,
    Reference,
}

/// Mathematical picture of an [`ObjectType`].
pub struct TypeModel {
    pub size: u32,
    pub types: Seq<u32>,
    pub pass_by: PassBy,
    pub id: Seq<char>,
}

/// A type of object: its size in bytes, the types nested in it (each named by its index
/// in the type list of the machine that knows it), how it is passed, and its name.
#[derive(PartialEq, Debug)]
pub struct ObjectType {
    pub size: u32,
    pub types: Vec<u32>,
    pub pass_by: PassBy,
    pub id: String,
}

impl View for ObjectType {
    type V = TypeModel;

    open spec fn view(&self) -> TypeModel {
        TypeModel { size: self.size, types: self.types@, pass_by: self.pass_by, id: self.id@ }
    }
}

/// The four big-endian bytes of `v`.
pub open spec fn be32(v: u32) -> Seq<u8> {
    seq![(v >> 24u32) as u8, (v >> 16u32) as u8, (v >> 8u32) as u8, v as u8]
}

/// The big-endian indices of the nested types `s`, one after the other.
pub open spec fn nested_bytes(s: Seq<u32>) -> Seq<u8>
    decreases s.len(),
{
    if s.len() == 0 {
        Seq::empty()
    } else {
        nested_bytes(s.drop_last()) + be32(s.last())
    }
}

/// The bytes of a type: its size, then 1 when passed by reference and 0 when passed by
/// value, the number of nested types and their indices, then the length of its name in
/// UTF-8 and the name itself; every number is a big-endian `u32`.
pub open spec fn type_bytes(t: TypeModel) -> Seq<u8> {
    be32(t.size) + seq![if t.pass_by == PassBy::Reference { 1u8 } else { 0u8 }]
        + be32(t.types.len() as u32) + nested_bytes(t.types)
        + be32(encode_utf8(t.id).len() as u32) + encode_utf8(t.id)
}

/// The big-endian `u32` in the four bytes of `b` from `i`.
pub open spec fn be32_at(b: Seq<u8>, i: int) -> u32 {
    ((b[i] as u32) << 24u32) | ((b[i + 1] as u32) << 16u32) | ((b[i + 2] as u32) << 8u32) | (b[i + 3] as u32)
}

/// Reading a type back from its bytes (see [`type_bytes`]), given how many types the
/// machine knows: the bytes must hold the whole layout, the pass-by byte must be 0 or 1,
/// every nested type must be known (`ERR_NO_TYPE` otherwise) and the name must be valid
/// UTF-8; any other fault is `ERR_PROGRAM_READ`. Bytes after the name are ignored.
pub open spec fn parse_type(b: Seq<u8>, known: nat) -> VmResult<TypeModel> {
    let err = (ERR_PROGRAM_READ, "object::from_bytes");
    if b.len() < 13 {
        Err(err)
    } else if b[4] > 1 {
        Err(err)
    } else {
        let n = be32_at(b, 5) as int;
        if b.len() < 13 + 4 * n {
            Err(err)
        } else {
            let nested = Seq::new(n as nat, |k: int| be32_at(b, 9 + 4 * k));
            if exists|k: int| 0 <= k < n && nested[k] >= known {
                Err((ERR_NO_TYPE, "object::from_bytes"))
            } else {
                let l = be32_at(b, 9 + 4 * n) as int;
                let name = b.subrange(13 + 4 * n, 13 + 4 * n + l);
                if b.len() < 13 + 4 * n + l {
                    Err(err)
                } else if !valid_utf8(name) {
                    Err(err)
                } else {
                    Ok(TypeModel {
                        size: be32_at(b, 0),
                        types: nested,
                        pass_by: if b[4] == 1 { PassBy::Reference } else { PassBy::Value },
                        id: decode_utf8(name),
                    })
                }
            }
        }
    }
}

proof fn lemma_be32_roundtrip(v: u32)
    ensures
        ((((v >> 24u32) as u8) as u32) << 24u32) | ((((v >> 16u32) as u8) as u32) << 16u32)
            | ((((v >> 8u32) as u8) as u32) << 8u32) | ((v as u8) as u32) == v,
{
    assert(((((v >> 24u32) as u8) as u32) << 24u32) | ((((v >> 16u32) as u8) as u32) << 16u32)
        | ((((v >> 8u32) as u8) as u32) << 8u32) | ((v as u8) as u32) == v) by (bit_vector);
}

proof fn lemma_be32_at(b: Seq<u8>, i: int, v: u32)
    requires
        0 <= i,
        i + 4 <= b.len(),
        b.subrange(i, i + 4) == be32(v),
    ensures
        be32_at(b, i) == v,
{
    let w = b.subrange(i, i + 4);
    assert(w[0] == b[i] && w[1] == b[i + 1] && w[2] == b[i + 2] && w[3] == b[i + 3]);
    lemma_be32_roundtrip(v);
}

proof fn lemma_nested_bytes(s: Seq<u32>)
    ensures
        nested_bytes(s).len() == 4 * s.len(),
        forall|k: int| 0 <= k < s.len() ==> #[trigger] nested_bytes(s).subrange(4 * k, 4 * k + 4) == be32(s[k]),
    decreases s.len(),
{
    if s.len() > 0 {
        lemma_nested_bytes(s.drop_last());
        let p = nested_bytes(s.drop_last());
        assert forall|k: int| 0 <= k < s.len() implies #[trigger] nested_bytes(s).subrange(4 * k, 4 * k + 4) == be32(s[k]) by {
            if k < s.len() - 1 {
                assert(nested_bytes(s).subrange(4 * k, 4 * k + 4) =~= p.subrange(4 * k, 4 * k + 4));
            } else {
                assert(nested_bytes(s).subrange(4 * k, 4 * k + 4) =~= be32(s.last()));
            }
        }
    }
}

/// Reading back the bytes of a type gives the type again, whatever follows them, when its
/// nested types are known and its counts fit in a `u32`.
pub proof fn lemma_type_bytes_roundtrip(t: TypeModel, rest: Seq<u8>, known: nat)
    requires
        t.types.len() <= u32::MAX,
        encode_utf8(t.id).len() <= u32::MAX,
        forall|k: int| 0 <= k < t.types.len() ==> t.types[k] < known,
    ensures
        parse_type(type_bytes(t) + rest, known) == Ok::<TypeModel, VmError>(t),
{
    let b = type_bytes(t) + rest;
    let n = t.types.len() as int;
    let name = encode_utf8(t.id);
    lemma_nested_bytes(t.types);
    assert(b.subrange(0, 4) =~= be32(t.size));
    lemma_be32_at(b, 0, t.size);
    assert(b.subrange(5, 9) =~= be32(n as u32));
    lemma_be32_at(b, 5, n as u32);
    assert forall|k: int| 0 <= k < n implies be32_at(b, 9 + 4 * k) == t.types[k] by {
        assert(b.subrange(9 + 4 * k, 9 + 4 * k + 4) =~= nested_bytes(t.types).subrange(4 * k, 4 * k + 4));
        lemma_be32_at(b, 9 + 4 * k, t.types[k]);
    }
    let nested = Seq::new(n as nat, |k: int| be32_at(b, 9 + 4 * k));
    assert(nested =~= t.types);
    assert(b.subrange(9 + 4 * n, 13 + 4 * n) =~= be32(name.len() as u32));
    lemma_be32_at(b, 9 + 4 * n, name.len() as u32);
    assert(b.subrange(13 + 4 * n, 13 + 4 * n + name.len()) =~= name);
    encode_utf8_valid_utf8(t.id);
    encode_utf8_decode_utf8(t.id);
}

/// `String::from_utf8`: the string whose UTF-8 encoding `bytes` are, or `None` when they
/// are not valid UTF-8. Claimed: `Some` exactly for valid UTF-8, and then the string's
/// characters are the decoded ones.
#[verifier::external_body]
pub(crate) fn string_from_utf8(bytes: Vec<u8>) -> (r: Option<String>)
    ensures
        r is Some <==> valid_utf8(bytes@),
        r matches Some(s) ==> s@ == decode_utf8(bytes@),
{
    match String::from_utf8(bytes) {
        Ok(s) => Some(s),
        Err(_) => None,
    }
}

/// Appends the four big-endian bytes of `v`.
pub(crate) fn push_be32(out: &mut Vec<u8>, v: u32)
    ensures
        final(out)@ == old(out)@ + be32(v),
{
    out.push((v >> 24) as u8);
    out.push((v >> 16) as u8);
    out.push((v >> 8) as u8);
    out.push(v as u8);
    assert(out@ =~= old(out)@ + be32(v));
}

impl ObjectType {
    /// The bytes of this type (see [`type_bytes`]).
    pub fn to_bytes(&self) -> (r: Vec<u8>)
        ensures
            r@ == type_bytes(self@),
    {
        let mut out: Vec<u8> = Vec::new();
        push_be32(&mut out, self.size);
        out.push(
            match self.pass_by {
                PassBy::Reference => 1,
                PassBy::Value => 0,
            },
        );
        push_be32(&mut out, self.types.len() as u32);
        let ghost head = out@;
        let mut i: usize = 0;
        while i < self.types.len()
            invariant
                i <= self.types@.len(),
                out@ == head + nested_bytes(self.types@.take(i as int)),
            decreases self.types@.len() - i,
        {
            push_be32(&mut out, self.types[i]);
            i += 1;
            assert(self.types@.take(i as int).drop_last() =~= self.types@.take(i as int - 1));
        }
        assert(self.types@.take(self.types@.len() as int) =~= self.types@);
        let name = self.id.as_str().as_bytes();
        push_be32(&mut out, name.len() as u32);
        let ghost mid = out@;
        let mut j: usize = 0;
        while j < name.len()
            invariant
                j <= name@.len(),
                out@ == mid + name@.take(j as int),
            decreases name@.len() - j,
        {
            out.push(name[j]);
            j += 1;
            assert(out@ =~= mid + name@.take(j as int));
        }
        assert(name@.take(name@.len() as int) =~= name@);
        assert(out@ =~= type_bytes(self@));
        out
    }
}

/// Mathematical picture of an [`Object`].
pub struct ObjModel {
    pub object_type: u32,
    pub references: u32,
    pub data: Seq<u8>,
    pub location: u32,
}

/// An object held by a machine: the index of its type, how many references point to it,
/// its bytes and the slot it occupies.
#[derive(Debug)]
pub struct Object {
    pub object_type: u32,
    pub references: u32,
    data: Vec<u8>,
    pub location: u32,
}

impl View for Object {
    type V = ObjModel;

    closed spec fn view(&self) -> ObjModel {
        ObjModel {
            object_type: self.object_type,
            references: self.references,
            data: self.data@,
            location: self.location,
        }
    }
}

/// `n` zero bytes.
pub open spec fn zeros(n: nat) -> Seq<u8> {
    Seq::new(n, |i: int| 0u8)
}

/// `data` laid over zeroed bytes of the given length.
pub open spec fn laid_over_zeros(data: Seq<u8>, len: nat) -> Seq<u8> {
    data + zeros((len - data.len()) as nat)
}

impl Object {
    /// A fresh object of the given type and size: one reference, zeroed bytes, and no slot
    /// yet (`u32::MAX`).
    pub fn fresh(object_type: u32, size: u32) -> (o: Object)
        ensures
            o@ == (ObjModel {
                object_type,
                references: 1,
                data: zeros(size as nat),
                location: 4294967295,
            }),
    {
        let mut z: Vec<u8> = Vec::new();
        let mut k: u32 = 0;
        while k < size
            invariant
                k <= size,
                z@ == zeros(k as nat),
            decreases size - k,
        {
            z.push(0);
            k += 1;
            assert(z@ =~= zeros(k as nat));
        }
        Object { object_type, references: 1, data: z, location: 4294967295 }
    }

    /// The object's bytes.
    pub fn get_data(&self) -> (d: &Vec<u8>)
        ensures
            d@ == self@.data,
    {
        &self.data
    }

    /// Writes `data` over the start of the object's bytes and returns true, or returns
    /// false and changes nothing when `data` is longer than the object.
    pub fn set_data(&mut self, data: Vec<u8>) -> (ok: bool)
        ensures
            ok == (data@.len() <= old(self)@.data.len()),
            ok ==> final(self)@ == (ObjModel {
                data: data@ + old(self)@.data.skip(data@.len() as int),
                ..old(self)@
            }),
            !ok ==> final(self)@ == old(self)@,
    {
        if data.len() > self.data.len() {
            return false;
        }
        let mut i: usize = 0;
        while i < data.len()
            invariant
                i <= data@.len(),
                data@.len() <= old(self)@.data.len(),
                self.data@.len() == old(self)@.data.len(),
                self@.object_type == old(self)@.object_type,
                self@.references == old(self)@.references,
                self@.location == old(self)@.location,
                forall|j: int|
                    0 <= j < self.data@.len() ==> #[trigger] self.data@[j] == if j < i {
                        data@[j]
                    } else {
                        old(self)@.data[j]
                    },
            decreases data@.len() - i,
        {
            self.data.set(i, data[i]);
            i += 1;
        }
        assert(self.data@ =~= data@ + old(self)@.data.skip(data@.len() as int));
        true
    }

    /// Sets every byte of the object to 0.
    pub fn clear_data(&mut self)
        ensures
            final(self)@ == (ObjModel { data: zeros(old(self)@.data.len()), ..old(self)@ }),
    {
        let mut i: usize = 0;
        while i < self.data.len()
            invariant
                i <= self.data@.len(),
                self.data@.len() == old(self)@.data.len(),
                self@.object_type == old(self)@.object_type,
                self@.references == old(self)@.references,
                self@.location == old(self)@.location,
                forall|j: int| 0 <= j < i ==> #[trigger] self.data@[j] == 0,
            decreases self.data@.len() - i,
        {
            self.data.set(i, 0);
            i += 1;
        }
        assert(self.data@ =~= zeros(old(self)@.data.len()));
    }

    /// How many references point to the object.
    pub fn get_ref_count(&self) -> (n: u32)
        ensures
            n == self@.references,
    {
        self.references
    }

    /// Sets the reference count.
    pub fn set_ref_count(&mut self, count: u32)
        ensures
            final(self)@ == (ObjModel { references: count, ..old(self)@ }),
    {
        self.references = count;
    }

    /// The index of the object's type.
    pub(crate) fn type_index(&self) -> (t: u32)
        ensures
            t == self@.object_type,
    {
        self.object_type
    }

    /// Sets the slot the object occupies.
    pub(crate) fn set_location(&mut self, location: u32)
        ensures
            final(self)@ == (ObjModel { location, ..old(self)@ }),
    {
        self.location = location;
    }
}

} // verus!
