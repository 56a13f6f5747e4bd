use vstd::prelude::*;
use crate::vm_v4::object::{ObjectType, TypeModel, type_bytes, push_be32};
use crate::le_bytes::le_byte;
use crate::vm_v4::vm_state::{be_read, be_bytes_of, lemma_be_read_bytes};

verus! {

/// Mathematical picture of a [`Program`].
pub struct ProgramModel {
    pub program_start: u64,
    pub compiled_date: u64,
    pub fc_major: u16,
    pub fc_minor: u16,
    pub fc_bug_fix: u16,
    pub structs: Seq<TypeModel>,
    pub code: Seq<u8>,
}

/// An assembled program: a header (where the code starts, when it was compiled, and the
/// version it was compiled for), the struct types it uses, and its bytecode.
pub struct Program {
    program_start: u64,
    compiled_date: u64,
    fc_major: u16,
    fc_minor: u16,
    fc_bug_fix: u16,
    structs: Vec<ObjectType>,
    code: Vec<u8>,
}

impl View for Program {
    type V = ProgramModel;

    closed spec fn view(&self) -> ProgramModel {
        ProgramModel {
            program_start: self.program_start,
            compiled_date: self.compiled_date,
            fc_major: self.fc_major,
            fc_minor: self.fc_minor,
            fc_bug_fix: self.fc_bug_fix,
            structs: self.structs@.map_values(|t: ObjectType| t@),
            code: self.code@,
        }
    }
}

/// Seconds since the Unix epoch by the system clock (`std::time::SystemTime::now`), or
/// `None` when the clock reads earlier than the epoch. Nothing is claimed of the value,
/// which depends on the machine's clock.
#[verifier::external_body]
fn unix_time_secs() -> (secs: Option<u64>) {
    match std::time::SystemTime::now().duration_since(std::time::UNIX_EPOCH) {
        Ok(d) => Some(d.as_secs()),
        Err(_) => None,
    }
}

/// The two big-endian bytes of `v`.
pub open spec fn be16(v: u16) -> Seq<u8> {
    seq![(v >> 8u16) as u8, v as u8]
}

/// The eight big-endian bytes of `v`.
pub open spec fn be64(v: u64) -> Seq<u8> {
    Seq::new(8, |i: int| le_byte(v, (7 - i) as nat))
}

/// The bytes of the struct types `s`, one after the other (see [`type_bytes`]).
pub open spec fn structs_bytes(s: Seq<TypeModel>) -> Seq<u8>
    decreases s.len(),
{
    if s.len() == 0 {
        Seq::empty()
    } else {
        structs_bytes(s.drop_last()) + type_bytes(s.last())
    }
}

/// The eight little-endian bytes of `v`.
pub open spec fn le64(v: u64) -> Seq<u8> {
    Seq::new(8, |i: int| le_byte(v, i as nat))
}

/// The bytes of a program: where its code starts (the 22 header bytes plus the struct
/// bytes, as a little-endian `u64`), the compilation date (big-endian `u64`), the three
/// version numbers (big-endian `u16`), the struct types, then the code.
pub open spec fn program_bytes(p: ProgramModel) -> Seq<u8> {
    let n = structs_bytes(p.structs).len();
    le64((22 + n) as u64) + be64(p.compiled_date)
        + be16(p.fc_major) + be16(p.fc_minor) + be16(p.fc_bug_fix) + structs_bytes(p.structs)
        + p.code
}

/// Appends the eight big-endian bytes of `v`.
fn push_be64(out: &mut Vec<u8>, v: u64)
    ensures
        final(out)@ == old(out)@ + be64(v),
{
    let ghost start = out@;
    let mut k: u64 = 0;
    while k < 8
        invariant
            k <= 8,
            out@ == start + be64(v).take(k as int),
        decreases 8 - k,
    {
        out.push(((v >> (8 * (7 - k))) & 0xff) as u8);
        k += 1;
        assert(out@ =~= start + be64(v).take(k as int));
    }
    assert(be64(v).take(8) =~= be64(v));
}

/// Appends the two big-endian bytes of `v`.
fn push_be16(out: &mut Vec<u8>, v: u16)
    ensures
        final(out)@ == old(out)@ + be16(v),
{
    out.push((v >> 8) as u8);
    out.push(v as u8);
    assert(out@ =~= old(out)@ + be16(v));
}

impl Program {
    /// A program for version `fc_major.fc_minor.fc_bug_fix` with the given code and
    /// struct types, dated now (0 when the clock reads before 1970).
    pub fn new(fc_major: u16, fc_minor: u16, fc_bug_fix: u16, code: Vec<u8>, structs: Vec<ObjectType>) -> (p: Self)
        ensures
            p@ == (ProgramModel {
                program_start: 0,
                compiled_date: p@.compiled_date,
                fc_major,
                fc_minor,
                fc_bug_fix,
                structs: structs@.map_values(|t: ObjectType| t@),
                code: code@,
            }),
    {
        let compiled_date = match unix_time_secs() {
            Some(s) => s,
            None => 0,
        };
        Program { program_start: 0, compiled_date, fc_major, fc_minor, fc_bug_fix, structs, code }
    }

    /// The bytes of the program (see [`program_bytes`]). The code-start field is filled in
    /// last, over a placeholder, one byte at a time from byte 0, byte `k` taking bits `8k` to
    /// `8k + 7` of the offset: it is the one little-endian field of the header, the date
    /// and version numbers being big-endian.
    pub fn to_bytes(&self) -> (r: Vec<u8>)
        ensures
            r@ == program_bytes(self@),
    {
        let mut sers: Vec<u8> = Vec::new();
        push_be64(&mut sers, u64::MAX);
        push_be64(&mut sers, self.compiled_date);
        push_be16(&mut sers, self.fc_major);
        push_be16(&mut sers, self.fc_minor);
        push_be16(&mut sers, self.fc_bug_fix);
        assert(be64(u64::MAX).len() == 8 && be64(self.compiled_date).len() == 8);
        assert(be16(self.fc_major).len() == 2 && be16(self.fc_minor).len() == 2 && be16(self.fc_bug_fix).len() == 2);
        assert(sers@.len() == 22);
        let ghost head = sers@;
        let ghost tys = self@.structs;
        let mut struct_byte_count: u64 = 0;
        let mut i: usize = 0;
        while i < self.structs.len()
            invariant
                i <= self.structs@.len(),
                tys == self.structs@.map_values(|t: ObjectType| t@),
                head.len() == 22,
                sers@ == head + structs_bytes(tys.take(i as int)),
                struct_byte_count == structs_bytes(tys.take(i as int)).len(),
            decreases self.structs@.len() - i,
        {
            let mut type_serz = self.structs[i].to_bytes();
            assert(tys[i as int] == self.structs@[i as int]@);
            let ghost added = type_serz@;
            let added_len = type_serz.len();
            sers.append(&mut type_serz);
            let total = sers.len();
            assert(total == 22 + struct_byte_count + added_len);
            struct_byte_count = struct_byte_count + added_len as u64;
            i += 1;
            assert(tys.take(i as int).drop_last() =~= tys.take(i as int - 1));
            assert(sers@ =~= head + structs_bytes(tys.take(i as int)));
        }
        assert(tys.take(tys.len() as int) =~= tys);
        let ghost body = sers@;
        assert(body.len() == 22 + struct_byte_count);
        let mut j: usize = 0;
        while j < self.code.len()
            invariant
                j <= self.code@.len(),
                sers@ == body + self.code@.take(j as int),
            decreases self.code@.len() - j,
        {
            sers.push(self.code[j]);
            j += 1;
            assert(sers@ =~= body + self.code@.take(j as int));
        }
        assert(self.code@.take(self.code@.len() as int) =~= self.code@);
        let ghost full = sers@;
        let total_len = sers.len();
        assert(total_len >= 22 + struct_byte_count);
        let start: u64 = 22 + struct_byte_count;
        let mut count: usize = 0;
        while count < 8
            invariant
                count <= 8,
                sers@.len() == full.len(),
                full.len() >= 22,
                forall|k: int| 0 <= k < sers@.len() ==> #[trigger] sers@[k] == if k < count {
                    le64(start)[k]
                } else {
                    full[k]
                },
            decreases 8 - count,
        {
            let c = count as u64;
            let b = ((start >> (8 * c)) & 0xff) as u8;
            assert(b == le64(start)[count as int]);
            sers.set(count, b);
            count += 1;
        }
        assert(sers@ =~= program_bytes(self@));
        sers
    }

    /// A program read from bytes: the header fields are 0 and it has no struct types and
    /// no code, whatever the bytes hold.
    pub fn from_bytes(bytes: Vec<u8>) -> (p: Self)
        ensures
            p@ == (ProgramModel {
                program_start: 0,
                compiled_date: 0,
                fc_major: 0,
                fc_minor: 0,
                fc_bug_fix: 0,
                structs: Seq::empty(),
                code: Seq::empty(),
            }),
    {
        let p = Program {
            program_start: 0,
            compiled_date: 0,
            fc_major: 0,
            fc_minor: 0,
            fc_bug_fix: 0,
            structs: Vec::new(),
            code: Vec::new(),
        };
        assert(p@.structs =~= Seq::empty());
        p
    }
}

/// The first eight bytes of a program's bytes give, little-endian, where its code starts:
/// the code is everything from that offset on.
pub proof fn lemma_code_start(p: ProgramModel)
    requires
        22 + structs_bytes(p.structs).len() <= u64::MAX,
    ensures
        ({
            let start = 22 + structs_bytes(p.structs).len();
            let b = program_bytes(p);
            &&& b.subrange(0, 8) == le64(start as u64)
            &&& b.len() == start + p.code.len()
            &&& b.skip(start as int) == p.code
        }),
{
    let start = 22 + structs_bytes(p.structs).len();
    let b = program_bytes(p);
    assert(b.subrange(0, 8) =~= le64(start as u64));
    assert(b.skip(start as int) =~= p.code);
}

/// After the code-start field, a program's bytes hold its compilation date as a
/// big-endian `u64` (bytes 8 to 15 read back, most significant first, as the date) and its
/// major, minor and bug-fix version numbers as big-endian `u16`s (bytes 16 to 21).
pub proof fn lemma_header_fields(p: ProgramModel)
    ensures
        ({
            let b = program_bytes(p);
            &&& b.subrange(8, 16) == be64(p.compiled_date)
            &&& be_read(b, 8, 8) == p.compiled_date
            &&& b[16] * 256 + b[17] == p.fc_major
            &&& b[18] * 256 + b[19] == p.fc_minor
            &&& b[20] * 256 + b[21] == p.fc_bug_fix
        }),
{
    let b = program_bytes(p);
    assert(b.subrange(8, 16) =~= be64(p.compiled_date));
    assert(be64(p.compiled_date) =~= be_bytes_of(p.compiled_date));
    lemma_be_read_bytes(b, 8, p.compiled_date);
    lemma_be16(p.fc_major);
    lemma_be16(p.fc_minor);
    lemma_be16(p.fc_bug_fix);
}

proof fn lemma_be16(v: u16)
    ensures
        be16(v)[0] * 256 + be16(v)[1] == v,
{
    assert(((v >> 8u16) as u8) * 256 + (v as u8) == v) by (bit_vector);
}

} // verus!
