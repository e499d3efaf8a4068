//! Byte-level building blocks of the file formats: little-endian integers
//! and validity bitmaps.

use vstd::prelude::*;

verus! {

/// Number of values that `width` bytes can tell apart: 256 to the `width`.
pub open spec fn radix_limit(width: nat) -> nat
    decreases width,
{
    if width == 0 {
        1
    } else {
        256 * radix_limit((width - 1) as nat)
    }
}

/// The `width` low-order bytes of `value`, least significant first.
pub open spec fn le_bytes(value: nat, width: nat) -> Seq<u8>
    decreases width,
{
    if width == 0 {
        Seq::empty()
    } else {
        seq![(value % 256) as u8] + le_bytes(value / 256, (width - 1) as nat)
    }
}

/// The number that `bytes` spell, least significant byte first.
pub open spec fn le_value(bytes: Seq<u8>) -> nat
    decreases bytes.len(),
{
    if bytes.len() == 0 {
        0
    } else {
        bytes[0] as nat + 256 * le_value(bytes.skip(1))
    }
}

/// The limits of the widths that the formats use.
pub proof fn lemma_radix_limits()
    ensures
        radix_limit(0) == 1,
        radix_limit(1) == 0x100,
        radix_limit(4) == 0x1_0000_0000,
        radix_limit(8) == 0x1_0000_0000_0000_0000,
{
    reveal_with_fuel(radix_limit, 9);
}

/// An encoding has as many bytes as were asked for.
pub proof fn lemma_le_bytes_len(value: nat, width: nat)
    ensures
        le_bytes(value, width).len() == width,
    decreases width,
{
    if width > 0 {
        lemma_le_bytes_len(value / 256, (width - 1) as nat);
    }
}

/// What a byte string spells is below the limit of its length.
pub proof fn lemma_le_value_bound(bytes: Seq<u8>)
    ensures
        le_value(bytes) < radix_limit(bytes.len()),
    decreases bytes.len(),
{
    if bytes.len() > 0 {
        lemma_le_value_bound(bytes.skip(1));
    }
}

/// Reading back the encoding of a value that fits gives the value.
pub proof fn lemma_le_roundtrip(value: nat, width: nat)
    requires
        value < radix_limit(width),
    ensures
        le_value(le_bytes(value, width)) == value,
    decreases width,
{
    if width > 0 {
        let rest = le_bytes(value / 256, (width - 1) as nat);
        lemma_le_roundtrip(value / 256, (width - 1) as nat);
        assert(le_bytes(value, width).skip(1) =~= rest);
        assert(le_bytes(value, width)[0] == (value % 256) as u8);
    }
}

/// Zero is spelled with zeros only.
pub proof fn lemma_le_bytes_zero(width: nat)
    ensures
        le_bytes(0, width) == Seq::new(width, |i: int| 0u8),
    decreases width,
{
    if width > 0 {
        lemma_le_bytes_zero((width - 1) as nat);
        lemma_le_bytes_len(0, width);
    }
    assert(le_bytes(0, width) =~= Seq::new(width, |i: int| 0u8));
}

/// Appends the `width` low-order bytes of `value`, least significant first.
pub fn push_le(buf: &mut Vec<u8>, value: u64, width: usize)
    requires
        width <= 8,
    ensures
        final(buf)@ == old(buf)@ + le_bytes(value as nat, width as nat),
{
    let mut rest: u64 = value;
    let mut i: usize = 0;
    while i < width
        invariant
            i <= width,
            old(buf)@ + le_bytes(value as nat, width as nat) == buf@ + le_bytes(
                rest as nat,
                (width - i) as nat,
            ),
        decreases width - i,
    {
        let ghost before = buf@;
        buf.push((rest % 256) as u8);
        proof {
            let tail = le_bytes((rest / 256) as nat, (width - i - 1) as nat);
            assert(le_bytes(rest as nat, (width - i) as nat) == seq![(rest % 256) as u8] + tail);
            assert(before + (seq![(rest % 256) as u8] + tail) =~= buf@ + tail);
        }
        rest = rest / 256;
        i += 1;
    }
    assert(buf@ + le_bytes(rest as nat, 0) =~= buf@);
}

/// Reads the number that `bytes[start..start + width]` spell.
pub fn read_le(bytes: &[u8], start: usize, width: usize) -> (value: u64)
    requires
        width <= 8,
        start + width <= bytes@.len(),
    ensures
        value as nat == le_value(bytes@.subrange(start as int, start + width)),
{
    let len: usize = bytes.len();
    let mut acc: u64 = 0;
    let mut i: usize = width;
    while i > 0
        invariant
            i <= width <= 8,
            start + width <= bytes@.len() == len,
            acc as nat == le_value(bytes@.subrange(start + i, start + width)),
        decreases i,
    {
        proof {
            let prev = bytes@.subrange(start + i, start + width);
            let next = bytes@.subrange(start + i - 1, start + width);
            assert(next.skip(1) =~= prev);
            lemma_le_value_bound(prev);
            lemma_le_value_bound(next);
            reveal_with_fuel(radix_limit, 9);
        }
        i -= 1;
        acc = acc * 256 + bytes[start + i] as u64;
    }
    acc
}

/// One byte of a bitmap: bit `k` is set exactly when `bk` holds.
pub open spec fn pack_byte(
    b0: bool,
    b1: bool,
    b2: bool,
    b3: bool,
    b4: bool,
    b5: bool,
    b6: bool,
    b7: bool,
) -> u8 {
    (if b0 {
        1u8
    } else {
        0u8
    }) | (if b1 {
        2u8
    } else {
        0u8
    }) | (if b2 {
        4u8
    } else {
        0u8
    }) | (if b3 {
        8u8
    } else {
        0u8
    }) | (if b4 {
        16u8
    } else {
        0u8
    }) | (if b5 {
        32u8
    } else {
        0u8
    }) | (if b6 {
        64u8
    } else {
        0u8
    }) | (if b7 {
        128u8
    } else {
        0u8
    })
}

/// Whether bit `k` of `byte` is set.
pub open spec fn test_bit(byte: u8, k: int) -> bool {
    (byte >> (k as u8)) & 1 == 1
}

/// The flag at position `i`, false beyond the end.
pub open spec fn flag_at(flags: Seq<bool>, i: int) -> bool {
    0 <= i < flags.len() && flags[i]
}

/// Number of bytes in the bitmap of `rows` flags.
pub open spec fn bitmap_len(rows: nat) -> nat {
    (rows + 7) / 8
}

/// Byte `j` of the bitmap of `flags`.
pub open spec fn bitmap_byte(flags: Seq<bool>, j: int) -> u8 {
    pack_byte(
        flag_at(flags, 8 * j),
        flag_at(flags, 8 * j + 1),
        flag_at(flags, 8 * j + 2),
        flag_at(flags, 8 * j + 3),
        flag_at(flags, 8 * j + 4),
        flag_at(flags, 8 * j + 5),
        flag_at(flags, 8 * j + 6),
        flag_at(flags, 8 * j + 7),
    )
}

/// The bitmap of `flags`: flag `i` is bit `i % 8` of byte `i / 8`, and the
/// unused bits of the last byte are clear.
pub open spec fn bitmap(flags: Seq<bool>) -> Seq<u8> {
    Seq::new(bitmap_len(flags.len()), |j: int| bitmap_byte(flags, j))
}

/// The flag that a bitmap holds at position `i`.
pub open spec fn bitmap_get(bytes: Seq<u8>, i: int) -> bool {
    test_bit(bytes[i / 8], i % 8)
}

/// Each bit of a packed byte is the flag it was packed from.
pub proof fn lemma_pack_byte_bits(
    b0: bool,
    b1: bool,
    b2: bool,
    b3: bool,
    b4: bool,
    b5: bool,
    b6: bool,
    b7: bool,
)
    ensures
        test_bit(pack_byte(b0, b1, b2, b3, b4, b5, b6, b7), 0) == b0,
        test_bit(pack_byte(b0, b1, b2, b3, b4, b5, b6, b7), 1) == b1,
        test_bit(pack_byte(b0, b1, b2, b3, b4, b5, b6, b7), 2) == b2,
        test_bit(pack_byte(b0, b1, b2, b3, b4, b5, b6, b7), 3) == b3,
        test_bit(pack_byte(b0, b1, b2, b3, b4, b5, b6, b7), 4) == b4,
        test_bit(pack_byte(b0, b1, b2, b3, b4, b5, b6, b7), 5) == b5,
        test_bit(pack_byte(b0, b1, b2, b3, b4, b5, b6, b7), 6) == b6,
        test_bit(pack_byte(b0, b1, b2, b3, b4, b5, b6, b7), 7) == b7,
{
    let p = pack_byte(b0, b1, b2, b3, b4, b5, b6, b7);
    assert(p == (if b0 {
        1u8
    } else {
        0u8
    }) | (if b1 {
        2u8
    } else {
        0u8
    }) | (if b2 {
        4u8
    } else {
        0u8
    }) | (if b3 {
        8u8
    } else {
        0u8
    }) | (if b4 {
        16u8
    } else {
        0u8
    }) | (if b5 {
        32u8
    } else {
        0u8
    }) | (if b6 {
        64u8
    } else {
        0u8
    }) | (if b7 {
        128u8
    } else {
        0u8
    }) ==> (((p >> 0u8) & 1 == 1) == b0 && ((p >> 1u8) & 1 == 1) == b1 && ((p >> 2u8) & 1 == 1)
        == b2 && ((p >> 3u8) & 1 == 1) == b3 && ((p >> 4u8) & 1 == 1) == b4 && ((p >> 5u8) & 1
        == 1) == b5 && ((p >> 6u8) & 1 == 1) == b6 && ((p >> 7u8) & 1 == 1) == b7))
        by (bit_vector);
}

/// A bitmap gives back each flag it was built from.
pub proof fn lemma_bitmap_get(flags: Seq<bool>, i: int)
    requires
        0 <= i < flags.len(),
    ensures
        bitmap_get(bitmap(flags), i) == flags[i],
        bitmap(flags).len() == bitmap_len(flags.len()),
{
    let j = i / 8;
    lemma_pack_byte_bits(
        flag_at(flags, 8 * j),
        flag_at(flags, 8 * j + 1),
        flag_at(flags, 8 * j + 2),
        flag_at(flags, 8 * j + 3),
        flag_at(flags, 8 * j + 4),
        flag_at(flags, 8 * j + 5),
        flag_at(flags, 8 * j + 6),
        flag_at(flags, 8 * j + 7),
    );
    assert(bitmap(flags)[j] == bitmap_byte(flags, j));
}

fn flag(flags: &Vec<bool>, i: usize) -> (b: bool)
    ensures
        b == flag_at(flags@, i as int),
{
    i < flags.len() && flags[i]
}

fn pack(b0: bool, b1: bool, b2: bool, b3: bool, b4: bool, b5: bool, b6: bool, b7: bool) -> (byte:
    u8)
    ensures
        byte == pack_byte(b0, b1, b2, b3, b4, b5, b6, b7),
{
    let x0: u8 = if b0 { 1 } else { 0 };
    let x1: u8 = if b1 { 2 } else { 0 };
    let x2: u8 = if b2 { 4 } else { 0 };
    let x3: u8 = if b3 { 8 } else { 0 };
    let x4: u8 = if b4 { 16 } else { 0 };
    let x5: u8 = if b5 { 32 } else { 0 };
    let x6: u8 = if b6 { 64 } else { 0 };
    let x7: u8 = if b7 { 128 } else { 0 };
    x0 | x1 | x2 | x3 | x4 | x5 | x6 | x7
}

/// Appends the bitmap of `flags`.
pub fn push_bitmap(out: &mut Vec<u8>, flags: &Vec<bool>)
    requires
        flags@.len() <= usize::MAX - 8,
    ensures
        final(out)@ == old(out)@ + bitmap(flags@),
{
    let count: usize = (flags.len() + 7) / 8;
    let mut j: usize = 0;
    while j < count
        invariant
            j <= count,
            count == bitmap_len(flags@.len()),
            flags@.len() <= usize::MAX - 8,
            out@ == old(out)@ + Seq::new(j as nat, |t: int| bitmap_byte(flags@, t)),
        decreases count - j,
    {
        let base: usize = 8 * j;
        let byte = pack(
            flag(flags, base),
            flag(flags, base + 1),
            flag(flags, base + 2),
            flag(flags, base + 3),
            flag(flags, base + 4),
            flag(flags, base + 5),
            flag(flags, base + 6),
            flag(flags, base + 7),
        );
        out.push(byte);
        assert(out@ =~= old(out)@ + Seq::new((j + 1) as nat, |t: int| bitmap_byte(flags@, t)));
        j += 1;
    }
}

/// The number of bytes of the bitmap of `rows` flags.
pub fn bitmap_bytes(rows: usize) -> (len: usize)
    ensures
        len == bitmap_len(rows as nat),
{
    if rows % 8 == 0 {
        rows / 8
    } else {
        rows / 8 + 1
    }
}

/// Whether a bitmap that starts at `bytes[start]` has its bit `i` set.
pub fn read_bit(bytes: &[u8], start: usize, i: usize) -> (set: bool)
    requires
        start + i / 8 < bytes@.len(),
    ensures
        set == test_bit(bytes@[start + i / 8], (i % 8) as int),
{
    let len: usize = bytes.len();
    assert(start + i / 8 < len);
    let byte: u8 = bytes[start + i / 8];
    let k: u8 = (i % 8) as u8;
    (byte >> k) & 1 == 1
}

} // verus!
