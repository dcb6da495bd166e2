//! The reflected CRC-32 (polynomial 0xEDB88320) used to protect artifact
//! blocks on flash.

use vstd::prelude::*;

verus! {

/// The reflected CRC-32 polynomial.
pub const CRC32_POLYNOMIAL: u32 = 0xedb8_8320;

/// One bit step of the reflected CRC shift register.
pub open spec fn crc_shift(state: u32) -> u32 {
    if state & 1 != 0 {
        (state >> 1) ^ CRC32_POLYNOMIAL
    } else {
        state >> 1
    }
}

/// `n` bit steps of the shift register.
pub open spec fn crc_shifts(state: u32, n: nat) -> u32
    decreases n,
{
    if n == 0 {
        state
    } else {
        crc_shift(crc_shifts(state, (n - 1) as nat))
    }
}

/// The register after absorbing one byte.
pub open spec fn crc_byte(state: u32, byte: u8) -> u32 {
    crc_shifts(state ^ (byte as u32), 8)
}

/// The register after absorbing `bytes`, starting from `state`.
pub open spec fn crc_absorb(state: u32, bytes: Seq<u8>) -> u32
    decreases bytes.len(),
{
    if bytes.len() == 0 {
        state
    } else {
        crc_byte(crc_absorb(state, bytes.drop_last()), bytes.last())
    }
}

/// The initial register value.
pub open spec fn crc_initial() -> u32 {
    0xffff_ffff
}

/// The CRC-32 checksum of a byte sequence.
pub open spec fn crc32(bytes: Seq<u8>) -> u32 {
    crc_absorb(crc_initial(), bytes) ^ 0xffff_ffff
}

/// Absorbing `a` and then `b` leaves the register in the same state as
/// absorbing `a + b` in one go, so a checksum may be computed piecewise.
pub proof fn lemma_crc_absorb_concat(state: u32, a: Seq<u8>, b: Seq<u8>)
    ensures
        crc_absorb(crc_absorb(state, a), b) == crc_absorb(state, a + b),
    decreases b.len(),
{
    if b.len() == 0 {
        assert(a + b =~= a);
    } else {
        lemma_crc_absorb_concat(state, a, b.drop_last());
        assert((a + b).drop_last() =~= a + b.drop_last());
        assert((a + b).last() == b.last());
    }
}

/// A running CRC-32 computation.
#[derive(Clone, Copy)]
pub struct Crc32(pub u32);

impl Crc32 {
    /// The register state.
    pub open spec fn state(self) -> u32 {
        self.0
    }

    /// A computation that has absorbed nothing yet.
    pub fn new() -> (crc: Self)
        ensures
            crc.state() == crc_initial(),
    {
        Crc32(0xffff_ffff)
    }

    /// Absorbs `bytes` into the running checksum.
    pub fn update(&mut self, bytes: &[u8])
        ensures
            final(self).state() == crc_absorb(old(self).state(), bytes@),
    {
        let ghost start = self.0;
        let mut i: usize = 0;
        while i < bytes.len()
            invariant
                i <= bytes.len(),
                self.0 == crc_absorb(start, bytes@.take(i as int)),
            decreases bytes.len() - i,
        {
            let ghost before = self.0;
            self.0 = self.0 ^ (bytes[i] as u32);
            let mut k: u32 = 0;
            while k < 8
                invariant
                    k <= 8,
                    self.0 == crc_shifts(before ^ (bytes@[i as int] as u32), k as nat),
                decreases 8 - k,
            {
                self.0 = if self.0 & 1 != 0 {
                    (self.0 >> 1) ^ CRC32_POLYNOMIAL
                } else {
                    self.0 >> 1
                };
                k = k + 1;
            }
            assert(bytes@.take(i + 1).drop_last() =~= bytes@.take(i as int));
            i = i + 1;
        }
        assert(bytes@.take(bytes.len() as int) =~= bytes@);
    }

    /// The checksum of everything absorbed so far.
    pub fn finish(self) -> (sum: u32)
        ensures
            sum == self.state() ^ 0xffff_ffff,
    {
        self.0 ^ 0xffff_ffff
    }
}

/// The checksum of a whole byte slice.
pub fn crc32_of(bytes: &[u8]) -> (sum: u32)
    ensures
        sum == crc32(bytes@),
{
    let mut crc = Crc32::new();
    crc.update(bytes);
    crc.finish()
}

} // verus!
