//! Block checksums.
//!
//! Both checksums are reflected cyclic redundancy checks that consume the
//! input byte by byte through a shift register. The register update is
//! injective in the register and in the byte, which is what makes a change
//! of a single byte always visible in the checksum.

use vstd::prelude::*;

verus! {

/// Algorithm that protects the blocks of a rowset.
#[derive(Clone, Copy, Debug, PartialEq, Eq, Structural)]
pub enum ChecksumType {
    /// Blocks carry no checksum; the stored value is always zero.
    Disabled,
    /// CRC-32 (IEEE 802.3), the fast choice.
    Crc32,
    /// CRC-64 (ECMA-182 polynomial, reflected), the strong choice.
    Crc64,
}

/// Reflected generator polynomial of CRC-32.
pub const CRC32_POLY: u64 = 0xEDB8_8320;

/// All ones in the 32-bit register: initial value and final mask of CRC-32.
pub const CRC32_MASK: u64 = 0xFFFF_FFFF;

/// Reflected generator polynomial of CRC-64.
pub const CRC64_POLY: u64 = 0xC96C_5795_D787_0F42;

/// All ones in the 64-bit register: initial value and final mask of CRC-64.
pub const CRC64_MASK: u64 = 0xFFFF_FFFF_FFFF_FFFF;

/// One bit of polynomial division: shift the register right and subtract
/// the polynomial when a one fell out.
pub open spec fn crc_shift(poly: u64, x: u64) -> u64 {
    (x >> 1) ^ (if x & 1 == 1 {
        poly
    } else {
        0
    })
}

/// The register after it has absorbed one byte.
pub open spec fn crc_step(poly: u64, state: u64, byte: u8) -> u64 {
    let x0 = state ^ (byte as u64);
    let x1 = crc_shift(poly, x0);
    let x2 = crc_shift(poly, x1);
    let x3 = crc_shift(poly, x2);
    let x4 = crc_shift(poly, x3);
    let x5 = crc_shift(poly, x4);
    let x6 = crc_shift(poly, x5);
    let x7 = crc_shift(poly, x6);
    crc_shift(poly, x7)
}

/// The register after it has absorbed `bytes`, starting from `init`.
pub open spec fn crc_state(poly: u64, init: u64, bytes: Seq<u8>) -> u64
    decreases bytes.len(),
{
    if bytes.len() == 0 {
        init
    } else {
        crc_step(poly, crc_state(poly, init, bytes.drop_last()), bytes.last())
    }
}

/// The checksum of `bytes` under algorithm `kind`, widened to 64 bits.
pub open spec fn checksum_of(kind: ChecksumType, bytes: Seq<u8>) -> u64 {
    match kind {
        ChecksumType::Disabled => 0,
        ChecksumType::Crc32 => crc_state(CRC32_POLY, CRC32_MASK, bytes) ^ CRC32_MASK,
        ChecksumType::Crc64 => crc_state(CRC64_POLY, CRC64_MASK, bytes) ^ CRC64_MASK,
    }
}

impl ChecksumType {
    /// Identifier stored in the header of an index file.
    pub open spec fn spec_id(self) -> u8 {
        match self {
            ChecksumType::Disabled => 0,
            ChecksumType::Crc32 => 1,
            ChecksumType::Crc64 => 2,
        }
    }

    /// Identifier stored in the header of an index file.
    pub fn id(self) -> (id: u8)
        ensures
            id == self.spec_id(),
    {
        match self {
            ChecksumType::Disabled => 0,
            ChecksumType::Crc32 => 1,
            ChecksumType::Crc64 => 2,
        }
    }

    /// The algorithm that an identifier of an index header stands for.
    pub fn from_id(id: u8) -> (kind: Option<ChecksumType>)
        ensures
            match kind {
                Some(k) => k.spec_id() == id,
                None => id > 2,
            },
    {
        if id == 0 {
            Some(ChecksumType::Disabled)
        } else if id == 1 {
            Some(ChecksumType::Crc32)
        } else if id == 2 {
            Some(ChecksumType::Crc64)
        } else {
            None
        }
    }

    /// Generator polynomial of the algorithm; zero when disabled.
    pub open spec fn poly(self) -> u64 {
        match self {
            ChecksumType::Disabled => 0,
            ChecksumType::Crc32 => CRC32_POLY,
            ChecksumType::Crc64 => CRC64_POLY,
        }
    }

    /// Register mask of the algorithm; zero when disabled.
    pub open spec fn mask(self) -> u64 {
        match self {
            ChecksumType::Disabled => 0,
            ChecksumType::Crc32 => CRC32_MASK,
            ChecksumType::Crc64 => CRC64_MASK,
        }
    }

    /// Checksum of `bytes[start..end]`.
    pub fn checksum_range(self, bytes: &[u8], start: usize, end: usize) -> (sum: u64)
        requires
            start <= end <= bytes@.len(),
        ensures
            sum == checksum_of(self, bytes@.subrange(start as int, end as int)),
    {
        let (poly, mask): (u64, u64) = match self {
            ChecksumType::Disabled => { return 0; },
            ChecksumType::Crc32 => (CRC32_POLY, CRC32_MASK),
            ChecksumType::Crc64 => (CRC64_POLY, CRC64_MASK),
        };
        let len: usize = bytes.len();
        let mut state: u64 = mask;
        let mut i: usize = start;
        while i < end
            invariant
                start <= i <= end <= bytes@.len() == len,
                state == crc_state(poly, mask, bytes@.subrange(start as int, i as int)),
            decreases end - i,
        {
            proof {
                let next = bytes@.subrange(start as int, i + 1);
                assert(next.drop_last() =~= bytes@.subrange(start as int, i as int));
                assert(next.last() == bytes@[i as int]);
            }
            state = absorb(poly, state, bytes[i]);
            i += 1;
        }
        state ^ mask
    }

    /// Checksum of all of `bytes`.
    pub fn checksum(self, bytes: &[u8]) -> (sum: u64)
        ensures
            sum == checksum_of(self, bytes@),
    {
        assert(bytes@.subrange(0, bytes@.len() as int) =~= bytes@);
        self.checksum_range(bytes, 0, bytes.len())
    }
}

fn shift_once(poly: u64, x: u64) -> (y: u64)
    ensures
        y == crc_shift(poly, x),
{
    if x & 1 == 1 {
        (x >> 1) ^ poly
    } else {
        assert((x >> 1) ^ 0 == x >> 1) by (bit_vector);
        x >> 1
    }
}

fn absorb(poly: u64, state: u64, byte: u8) -> (next: u64)
    ensures
        next == crc_step(poly, state, byte),
{
    let x0 = state ^ (byte as u64);
    let x1 = shift_once(poly, x0);
    let x2 = shift_once(poly, x1);
    let x3 = shift_once(poly, x2);
    let x4 = shift_once(poly, x3);
    let x5 = shift_once(poly, x4);
    let x6 = shift_once(poly, x5);
    let x7 = shift_once(poly, x6);
    shift_once(poly, x7)
}

/// The register of an enabled algorithm never leaves the algorithm's width.
proof fn lemma_shift_bounded(kind: ChecksumType, x: u64)
    requires
        kind != ChecksumType::Disabled,
        x <= kind.mask(),
    ensures
        crc_shift(kind.poly(), x) <= kind.mask(),
{
    if kind == ChecksumType::Crc32 {
        assert(x <= 0xFFFF_FFFFu64 ==> ((x >> 1) ^ (if x & 1 == 1 {
            0xEDB8_8320u64
        } else {
            0u64
        })) <= 0xFFFF_FFFFu64) by (bit_vector);
    }
}

/// Inside the algorithm's width, one division step loses nothing.
proof fn lemma_shift_injective(kind: ChecksumType, x: u64, y: u64)
    requires
        kind != ChecksumType::Disabled,
        x <= kind.mask(),
        y <= kind.mask(),
        crc_shift(kind.poly(), x) == crc_shift(kind.poly(), y),
    ensures
        x == y,
{
    if kind == ChecksumType::Crc32 {
        assert((x <= 0xFFFF_FFFFu64 && y <= 0xFFFF_FFFFu64 && ((x >> 1) ^ (if x & 1 == 1 {
            0xEDB8_8320u64
        } else {
            0u64
        })) == ((y >> 1) ^ (if y & 1 == 1 {
            0xEDB8_8320u64
        } else {
            0u64
        }))) ==> x == y) by (bit_vector);
    } else {
        assert((((x >> 1) ^ (if x & 1 == 1 {
            0xC96C_5795_D787_0F42u64
        } else {
            0u64
        })) == ((y >> 1) ^ (if y & 1 == 1 {
            0xC96C_5795_D787_0F42u64
        } else {
            0u64
        }))) ==> x == y) by (bit_vector);
    }
}

/// Two registers that differ before the eight division steps of a byte
/// differ after them.
proof fn lemma_shift8_injective(kind: ChecksumType, x0: u64, y0: u64)
    requires
        kind != ChecksumType::Disabled,
        x0 <= kind.mask(),
        y0 <= kind.mask(),
        x0 != y0,
    ensures
        crc_step(kind.poly(), x0, 0) != crc_step(kind.poly(), y0, 0),
        crc_step(kind.poly(), x0, 0) <= kind.mask(),
{
    let p = kind.poly();
    assert(x0 ^ 0 == x0) by (bit_vector);
    assert(y0 ^ 0 == y0) by (bit_vector);
    let x1 = crc_shift(p, x0);
    let y1 = crc_shift(p, y0);
    lemma_shift_bounded(kind, x0);
    lemma_shift_bounded(kind, y0);
    if x1 == y1 {
        lemma_shift_injective(kind, x0, y0);
    }
    let x2 = crc_shift(p, x1);
    let y2 = crc_shift(p, y1);
    lemma_shift_bounded(kind, x1);
    lemma_shift_bounded(kind, y1);
    if x2 == y2 {
        lemma_shift_injective(kind, x1, y1);
    }
    let x3 = crc_shift(p, x2);
    let y3 = crc_shift(p, y2);
    lemma_shift_bounded(kind, x2);
    lemma_shift_bounded(kind, y2);
    if x3 == y3 {
        lemma_shift_injective(kind, x2, y2);
    }
    let x4 = crc_shift(p, x3);
    let y4 = crc_shift(p, y3);
    lemma_shift_bounded(kind, x3);
    lemma_shift_bounded(kind, y3);
    if x4 == y4 {
        lemma_shift_injective(kind, x3, y3);
    }
    let x5 = crc_shift(p, x4);
    let y5 = crc_shift(p, y4);
    lemma_shift_bounded(kind, x4);
    lemma_shift_bounded(kind, y4);
    if x5 == y5 {
        lemma_shift_injective(kind, x4, y4);
    }
    let x6 = crc_shift(p, x5);
    let y6 = crc_shift(p, y5);
    lemma_shift_bounded(kind, x5);
    lemma_shift_bounded(kind, y5);
    if x6 == y6 {
        lemma_shift_injective(kind, x5, y5);
    }
    let x7 = crc_shift(p, x6);
    let y7 = crc_shift(p, y6);
    lemma_shift_bounded(kind, x6);
    lemma_shift_bounded(kind, y6);
    if x7 == y7 {
        lemma_shift_injective(kind, x6, y6);
    }
    lemma_shift_bounded(kind, x7);
    lemma_shift_bounded(kind, y7);
    if crc_shift(p, x7) == crc_shift(p, y7) {
        lemma_shift_injective(kind, x7, y7);
    }
}

/// Absorbing a byte is the eight division steps applied to the register
/// with the byte added to its low end.
proof fn lemma_step_unfold(poly: u64, state: u64, byte: u8)
    ensures
        crc_step(poly, state, byte) == crc_step(poly, state ^ (byte as u64), 0),
{
    let x = state ^ (byte as u64);
    assert(x ^ 0 == x) by (bit_vector);
}

/// Different inputs to one register update, be it in the register or in the
/// byte, give different registers.
proof fn lemma_step_injective(kind: ChecksumType, s1: u64, b1: u8, s2: u64, b2: u8)
    requires
        kind != ChecksumType::Disabled,
        s1 <= kind.mask(),
        s2 <= kind.mask(),
        (s1 == s2 && b1 != b2) || (s1 != s2 && b1 == b2),
    ensures
        crc_step(kind.poly(), s1, b1) != crc_step(kind.poly(), s2, b2),
        crc_step(kind.poly(), s1, b1) <= kind.mask(),
        crc_step(kind.poly(), s2, b2) <= kind.mask(),
{
    let w1 = b1 as u64;
    let w2 = b2 as u64;
    let m = kind.mask();
    assert(m == 0xFFFF_FFFFu64 || m == 0xFFFF_FFFF_FFFF_FFFFu64);
    assert((w1 <= 255 && w2 <= 255 && (m == 0xFFFF_FFFFu64 || m == 0xFFFF_FFFF_FFFF_FFFFu64) && s1
        <= m && s2 <= m && ((s1 == s2 && w1 != w2) || (s1 != s2 && w1 == w2))) ==> (s1 ^ w1) != (s2
        ^ w2) && (s1 ^ w1) <= m && (s2 ^ w2) <= m) by (bit_vector);
    lemma_step_unfold(kind.poly(), s1, b1);
    lemma_step_unfold(kind.poly(), s2, b2);
    lemma_shift8_injective(kind, s1 ^ w1, s2 ^ w2);
    lemma_shift8_injective(kind, s2 ^ w2, s1 ^ w1);
}

/// The register of an enabled algorithm stays inside the algorithm's width.
proof fn lemma_state_bounded(kind: ChecksumType, bytes: Seq<u8>)
    requires
        kind != ChecksumType::Disabled,
    ensures
        crc_state(kind.poly(), kind.mask(), bytes) <= kind.mask(),
    decreases bytes.len(),
{
    if bytes.len() > 0 {
        lemma_state_bounded(kind, bytes.drop_last());
        let s = crc_state(kind.poly(), kind.mask(), bytes.drop_last());
        let b = bytes.last();
        let other: u8 = if b == 0 {
            1
        } else {
            0
        };
        lemma_step_injective(kind, s, b, s, other);
    }
}

/// Two inputs of one length that differ in exactly one position leave
/// different registers behind.
proof fn lemma_state_detects_byte_change(kind: ChecksumType, a: Seq<u8>, b: Seq<u8>, p: int)
    requires
        kind != ChecksumType::Disabled,
        a.len() == b.len(),
        0 <= p < a.len(),
        a[p] != b[p],
        forall|i: int| 0 <= i < a.len() && i != p ==> a[i] == b[i],
    ensures
        crc_state(kind.poly(), kind.mask(), a) != crc_state(kind.poly(), kind.mask(), b),
    decreases a.len(),
{
    let sa = crc_state(kind.poly(), kind.mask(), a.drop_last());
    let sb = crc_state(kind.poly(), kind.mask(), b.drop_last());
    lemma_state_bounded(kind, a.drop_last());
    lemma_state_bounded(kind, b.drop_last());
    if p == a.len() - 1 {
        assert(a.drop_last() =~= b.drop_last());
        lemma_step_injective(kind, sa, a.last(), sb, b.last());
    } else {
        lemma_state_detects_byte_change(kind, a.drop_last(), b.drop_last(), p);
        lemma_step_injective(kind, sa, a.last(), sb, b.last());
    }
}

/// An enabled checksum notices every change of a single byte: the input
/// with the byte at `p` replaced by a different value has another checksum.
pub proof fn lemma_checksum_detects_byte_change(kind: ChecksumType, bytes: Seq<u8>, p: int, x: u8)
    requires
        kind != ChecksumType::Disabled,
        0 <= p < bytes.len(),
        x != bytes[p],
    ensures
        checksum_of(kind, bytes.update(p, x)) != checksum_of(kind, bytes),
{
    let changed = bytes.update(p, x);
    lemma_state_detects_byte_change(kind, changed, bytes, p);
    let s1 = crc_state(kind.poly(), kind.mask(), changed);
    let s2 = crc_state(kind.poly(), kind.mask(), bytes);
    let m = kind.mask();
    assert(s1 != s2 ==> (s1 ^ m) != (s2 ^ m)) by (bit_vector);
}

} // verus!
