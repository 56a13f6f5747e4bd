use vstd::prelude::*;

verus! {

/// The byte at `i`, or 0 when `i` lies outside the memory.
pub open spec fn byte_at(mem: Seq<u8>, i: int) -> u8 {
    if 0 <= i < mem.len() {
        mem[i]
    } else {
        0
    }
}

/// The little-endian number formed by the `n` bytes starting at `slot`
/// (bytes outside the memory count as 0).
pub open spec fn le_read(mem: Seq<u8>, slot: int, n: nat) -> nat
    decreases n,
{
    if n == 0 {
        0
    } else {
        (byte_at(mem, slot) + 256 * le_read(mem, slot + 1, (n - 1) as nat)) as nat
    }
}

/// `256` to the power `n`.
pub open spec fn pow256(n: nat) -> nat
    decreases n,
{
    if n == 0 {
        1
    } else {
        256 * pow256((n - 1) as nat)
    }
}

/// An `n`-byte little-endian number is below 256 to the power `n`.
pub proof fn lemma_le_read_bound(mem: Seq<u8>, slot: int, n: nat)
    ensures
        le_read(mem, slot, n) < pow256(n),
    decreases n,
{
    if n > 0 {
        lemma_le_read_bound(mem, slot + 1, (n - 1) as nat);
        let r = le_read(mem, slot + 1, (n - 1) as nat);
        let b = byte_at(mem, slot);
        let p = pow256((n - 1) as nat);
        assert(b + 256 * r < 256 * p) by (nonlinear_arith)
            requires
                r < p,
                0 <= b < 256,
        ;
    }
}

/// The `k`-th little-endian byte of `v`.
pub open spec fn le_byte(v: u64, k: nat) -> u8 {
    ((v >> (8 * k) as u64) & 0xff) as u8
}

pub proof fn lemma_or2(b0: u8, b1: u8)
    ensures
        ((b0 as u64) | ((b1 as u64) << 8u64)) == b0 + 256 * b1,
{
    assert(((b0 as u64) | ((b1 as u64) << 8u64)) == b0 + 256 * b1) by (bit_vector);
}

pub proof fn lemma_or4(b0: u8, b1: u8, b2: u8, b3: u8)
    ensures
        ((b0 as u64) | ((b1 as u64) << 8u64) | ((b2 as u64) << 16u64) | ((b3 as u64) << 24u64))
            == b0 + 256 * (b1 + 256 * (b2 + 256 * b3)),
{
    assert(((b0 as u64) | ((b1 as u64) << 8u64) | ((b2 as u64) << 16u64) | ((b3 as u64)
        << 24u64)) == b0 + 256 * (b1 + 256 * (b2 + 256 * b3))) by (bit_vector);
}

pub proof fn lemma_or8(b0: u8, b1: u8, b2: u8, b3: u8, b4: u8, b5: u8, b6: u8, b7: u8)
    ensures
        ((b0 as u64) | ((b1 as u64) << 8u64) | ((b2 as u64) << 16u64) | ((b3 as u64) << 24u64)
            | ((b4 as u64) << 32u64) | ((b5 as u64) << 40u64) | ((b6 as u64) << 48u64) | ((
        b7 as u64) << 56u64)) == b0 + 256 * (b1 + 256 * (b2 + 256 * (b3 + 256 * (b4 + 256 * (b5
            + 256 * (b6 + 256 * b7)))))),
{
    assert(((b0 as u64) | ((b1 as u64) << 8u64) | ((b2 as u64) << 16u64) | ((b3 as u64)
        << 24u64) | ((b4 as u64) << 32u64) | ((b5 as u64) << 40u64) | ((b6 as u64) << 48u64) | ((
    b7 as u64) << 56u64)) == b0 + 256 * (b1 + 256 * (b2 + 256 * (b3 + 256 * (b4 + 256 * (b5
        + 256 * (b6 + 256 * b7))))))) by (bit_vector);
}

/// The widths, in bytes, that values are read and written with.
pub open spec fn is_width(n: nat) -> bool {
    n == 1 || n == 2 || n == 4 || n == 8
}

/// `v` cut down to its low `n` bytes.
pub open spec fn truncate(v: u64, n: nat) -> u64 {
    if n == 1 {
        v % 0x100
    } else if n == 2 {
        v % 0x1_0000
    } else if n == 4 {
        v % 0x1_0000_0000
    } else {
        v
    }
}

/// `mem` with the `n` little-endian bytes of `v` stored at `slot`.
pub open spec fn le_store(mem: Seq<u8>, slot: int, v: u64, n: nat) -> Seq<u8> {
    Seq::new(
        mem.len(),
        |i: int|
            if slot <= i < slot + n {
                le_byte(v, (i - slot) as nat)
            } else {
                mem[i]
            },
    )
}

/// Reads the `n`-byte little-endian number at `slot`.
pub fn read_le(mem: &Vec<u8>, slot: usize, n: usize) -> (v: u64)
    requires
        is_width(n as nat),
        slot + n <= mem@.len(),
    ensures
        v == le_read(mem@, slot as int, n as nat),
{
    let _len = mem.len();
    if n == 1 {
        proof {
            reveal_with_fuel(le_read, 2);
        }
        mem[slot] as u64
    } else if n == 2 {
        let (b0, b1) = (mem[slot], mem[slot + 1]);
        proof {
            lemma_or2(b0, b1);
            reveal_with_fuel(le_read, 3);
        }
        (b0 as u64) | ((b1 as u64) << 8u64)
    } else if n == 4 {
        let (b0, b1, b2, b3) = (mem[slot], mem[slot + 1], mem[slot + 2], mem[slot + 3]);
        proof {
            lemma_or4(b0, b1, b2, b3);
            reveal_with_fuel(le_read, 5);
        }
        (b0 as u64) | ((b1 as u64) << 8u64) | ((b2 as u64) << 16u64) | ((b3 as u64) << 24u64)
    } else {
        let (b0, b1, b2, b3) = (mem[slot], mem[slot + 1], mem[slot + 2], mem[slot + 3]);
        let (b4, b5, b6, b7) = (mem[slot + 4], mem[slot + 5], mem[slot + 6], mem[slot + 7]);
        proof {
            lemma_or8(b0, b1, b2, b3, b4, b5, b6, b7);
            reveal_with_fuel(le_read, 9);
        }
        (b0 as u64) | ((b1 as u64) << 8u64) | ((b2 as u64) << 16u64) | ((b3 as u64) << 24u64)
            | ((b4 as u64) << 32u64) | ((b5 as u64) << 40u64) | ((b6 as u64) << 48u64) | ((
        b7 as u64) << 56u64)
    }
}

/// Stores the `n` little-endian bytes of `v` at `slot`.
pub fn write_le(mem: &mut Vec<u8>, slot: usize, v: u64, n: usize)
    requires
        n <= 8,
        slot + n <= old(mem)@.len(),
    ensures
        final(mem)@ == le_store(old(mem)@, slot as int, v, n as nat),
{
    let mut k: usize = 0;
    let _len = mem.len();
    while k < n
        invariant
            n <= 8,
            old(mem)@.len() <= usize::MAX,
            k <= n,
            slot + n <= old(mem)@.len(),
            mem@.len() == old(mem)@.len(),
            forall|i: int|
                0 <= i < mem@.len() ==> #[trigger] mem@[i] == if slot <= i < slot + k {
                    le_byte(v, (i - slot) as nat)
                } else {
                    old(mem)@[i]
                },
        decreases n - k,
    {
        let b = ((v >> (8 * k as u64)) & 0xff) as u8;
        mem.set(slot + k, b);
        k += 1;
    }
    assert(mem@ =~= le_store(old(mem)@, slot as int, v, n as nat));
}

/// `v` cut down to its low `n` bytes.
pub fn truncate_to(v: u64, n: usize) -> (t: u64)
    requires
        is_width(n as nat),
    ensures
        t == truncate(v, n as nat),
{
    if n == 1 {
        assert(v & 0xff == v % 0x100) by (bit_vector);
        v & 0xff
    } else if n == 2 {
        assert(v & 0xffff == v % 0x1_0000) by (bit_vector);
        v & 0xffff
    } else if n == 4 {
        assert(v & 0xffff_ffff == v % 0x1_0000_0000) by (bit_vector);
        v & 0xffff_ffff
    } else {
        v
    }
}

/// Reading back the bytes a store put down gives the stored value cut down to their width.
pub proof fn lemma_le_roundtrip(mem: Seq<u8>, slot: int, v: u64, n: nat)
    requires
        is_width(n),
        0 <= slot,
        slot + n <= mem.len(),
    ensures
        le_read(le_store(mem, slot, v, n), slot, n) == truncate(v, n),
{
    let w = le_store(mem, slot, v, n);
    reveal_with_fuel(le_read, 9);
    assert(byte_at(w, slot) == le_byte(v, 0));
    if n == 1 {
        assert(le_byte(v, 0) == v % 0x100) by (bit_vector);
    } else if n == 2 {
        assert(byte_at(w, slot + 1) == le_byte(v, 1));
        assert(le_byte(v, 0) + 256 * le_byte(v, 1) == v % 0x1_0000) by (bit_vector);
    } else if n == 4 {
        assert(byte_at(w, slot + 1) == le_byte(v, 1));
        assert(byte_at(w, slot + 2) == le_byte(v, 2));
        assert(byte_at(w, slot + 3) == le_byte(v, 3));
        assert(le_byte(v, 0) + 256 * (le_byte(v, 1) + 256 * (le_byte(v, 2) + 256 * le_byte(v, 3)))
            == v % 0x1_0000_0000) by (bit_vector);
    } else {
        assert(byte_at(w, slot + 1) == le_byte(v, 1));
        assert(byte_at(w, slot + 2) == le_byte(v, 2));
        assert(byte_at(w, slot + 3) == le_byte(v, 3));
        assert(byte_at(w, slot + 4) == le_byte(v, 4));
        assert(byte_at(w, slot + 5) == le_byte(v, 5));
        assert(byte_at(w, slot + 6) == le_byte(v, 6));
        assert(byte_at(w, slot + 7) == le_byte(v, 7));
        assert(v == le_byte(v, 0) + 256 * (le_byte(v, 1) + 256 * (le_byte(v, 2) + 256 * (le_byte(v, 3)
            + 256 * (le_byte(v, 4) + 256 * (le_byte(v, 5) + 256 * (le_byte(v, 6) + 256 * le_byte(
            v,
            7,
        )))))))) by (bit_vector);
    }
}

} // verus!
