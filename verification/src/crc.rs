//! CRC-32 (ISO-HDLC): the reflected polynomial `0xEDB88320`, register
//! preset to all ones, result complemented.

use vstd::prelude::*;

verus! {

/// The generator polynomial, bit-reflected.
pub const POLYNOMIAL: u32 = 0xEDB8_8320;

/// The register before any byte is fed.
pub const PRESET: u32 = 0xFFFF_FFFF;

/// One division step: shift one bit out, and subtract the polynomial if
/// that bit was set.
pub open spec fn shift(reg: u32) -> u32 {
    if reg & 1 == 1 {
        (reg >> 1) ^ POLYNOMIAL
    } else {
        reg >> 1
    }
}

/// `n` division steps in a row.
pub open spec fn shift_n(reg: u32, n: nat) -> u32
    decreases n,
{
    if n == 0 {
        reg
    } else {
        shift(shift_n(reg, (n - 1) as nat))
    }
}

/// The register after feeding one byte.
pub open spec fn feed(reg: u32, byte: u8) -> u32 {
    shift_n(reg ^ (byte as u32), 8)
}

/// The register after feeding `data`, byte by byte, starting from `reg`.
pub open spec fn run(reg: u32, data: Seq<u8>) -> u32
    decreases data.len(),
{
    if data.len() == 0 {
        reg
    } else {
        feed(run(reg, data.drop_last()), data.last())
    }
}

/// The CRC-32 of `data`.
pub open spec fn crc32(data: Seq<u8>) -> u32 {
    run(PRESET, data) ^ 0xFFFF_FFFF
}

/// Feeding a concatenation is feeding its parts in turn.
pub proof fn lemma_run_concat(reg: u32, a: Seq<u8>, b: Seq<u8>)
    ensures
        run(reg, a + b) == run(run(reg, a), b),
    decreases b.len(),
{
    if b.len() == 0 {
        assert(a + b =~= a);
    } else {
        lemma_run_concat(reg, a, b.drop_last());
        assert((a + b).drop_last() =~= a + b.drop_last());
        assert((a + b).last() == b.last());
    }
}

/// Feeding one more byte extends the run by that byte.
pub proof fn lemma_run_push(reg: u32, data: Seq<u8>, byte: u8)
    ensures
        run(reg, data.push(byte)) == feed(run(reg, data), byte),
{
    assert(data.push(byte).drop_last() =~= data);
}

/// A division step loses nothing: different registers stay different.
pub proof fn lemma_shift_injective(a: u32, b: u32)
    requires
        a != b,
    ensures
        shift(a) != shift(b),
{
    assert(a != b ==> (if a & 1 == 1 {
        (a >> 1) ^ 0xEDB8_8320u32
    } else {
        a >> 1
    }) != (if b & 1 == 1 {
        (b >> 1) ^ 0xEDB8_8320u32
    } else {
        b >> 1
    })) by (bit_vector);
}

/// Any number of division steps keeps different registers different.
pub proof fn lemma_shift_n_injective(a: u32, b: u32, n: nat)
    requires
        a != b,
    ensures
        shift_n(a, n) != shift_n(b, n),
    decreases n,
{
    if n > 0 {
        lemma_shift_n_injective(a, b, (n - 1) as nat);
        lemma_shift_injective(shift_n(a, (n - 1) as nat), shift_n(b, (n - 1) as nat));
    }
}

/// Feeding the same byte keeps different registers different.
pub proof fn lemma_feed_injective_in_register(a: u32, b: u32, byte: u8)
    requires
        a != b,
    ensures
        feed(a, byte) != feed(b, byte),
{
    let x = byte as u32;
    assert(a != b ==> a ^ x != b ^ x) by (bit_vector);
    lemma_shift_n_injective(a ^ x, b ^ x, 8);
}

/// Feeding different bytes to one register gives different registers.
pub proof fn lemma_feed_injective_in_byte(reg: u32, x: u8, y: u8)
    requires
        x != y,
    ensures
        feed(reg, x) != feed(reg, y),
{
    let xw = x as u32;
    let yw = y as u32;
    assert(xw != yw ==> reg ^ xw != reg ^ yw) by (bit_vector);
    lemma_shift_n_injective(reg ^ xw, reg ^ yw, 8);
}

/// Feeding the same bytes keeps different registers different.
pub proof fn lemma_run_injective_in_register(a: u32, b: u32, data: Seq<u8>)
    requires
        a != b,
    ensures
        run(a, data) != run(b, data),
    decreases data.len(),
{
    if data.len() > 0 {
        lemma_run_injective_in_register(a, b, data.drop_last());
        lemma_feed_injective_in_register(
            run(a, data.drop_last()),
            run(b, data.drop_last()),
            data.last(),
        );
    }
}

/// A change confined to one byte always changes the checksum.
pub proof fn lemma_crc32_detects_byte_change(data: Seq<u8>, i: int, byte: u8)
    requires
        0 <= i < data.len(),
        byte != data[i],
    ensures
        crc32(data.update(i, byte)) != crc32(data),
{
    let head = data.subrange(0, i);
    let tail = data.subrange(i + 1, data.len() as int);
    let changed = data.update(i, byte);
    assert(data =~= head.push(data[i]) + tail);
    assert(changed =~= head.push(byte) + tail);
    lemma_run_concat(PRESET, head.push(data[i]), tail);
    lemma_run_concat(PRESET, head.push(byte), tail);
    lemma_run_push(PRESET, head, data[i]);
    lemma_run_push(PRESET, head, byte);
    lemma_feed_injective_in_byte(run(PRESET, head), byte, data[i]);
    lemma_run_injective_in_register(
        run(PRESET, head.push(byte)),
        run(PRESET, head.push(data[i])),
        tail,
    );
    let p = run(PRESET, changed);
    let q = run(PRESET, data);
    assert(p != q ==> p ^ 0xFFFF_FFFFu32 != q ^ 0xFFFF_FFFFu32) by (bit_vector);
}

/// Feeds one byte to the register.
pub fn feed_byte(reg: u32, byte: u8) -> (next: u32)
    ensures
        next == feed(reg, byte),
{
    let mut cur: u32 = reg ^ (byte as u32);
    let mut done: u8 = 0;
    while done < 8
        invariant
            done <= 8,
            cur == shift_n(reg ^ (byte as u32), done as nat),
        decreases 8 - done,
    {
        cur = if cur & 1 == 1 {
            (cur >> 1) ^ POLYNOMIAL
        } else {
            cur >> 1
        };
        done = done + 1;
    }
    cur
}

/// Feeds every byte of `data` to the register, in order.
pub fn feed_bytes(reg: u32, data: &[u8]) -> (next: u32)
    ensures
        next == run(reg, data@),
{
    let mut cur: u32 = reg;
    let mut i: usize = 0;
    while i < data.len()
        invariant
            i <= data@.len(),
            cur == run(reg, data@.subrange(0, i as int)),
        decreases data@.len() - i,
    {
        proof {
            lemma_run_push(reg, data@.subrange(0, i as int), data@[i as int]);
            assert(data@.subrange(0, i as int).push(data@[i as int]) =~= data@.subrange(
                0,
                i + 1,
            ));
        }
        cur = feed_byte(cur, data[i]);
        i = i + 1;
    }
    assert(data@.subrange(0, i as int) =~= data@);
    cur
}

/// Computes the CRC-32 of `data`.
pub fn checksum(data: &[u8]) -> (crc: u32)
    ensures
        crc == crc32(data@),
{
    feed_bytes(PRESET, data) ^ 0xFFFF_FFFF
}

} // verus!
