//! CPU capability model: which instruction-set features the accelerated
//! multiplication strategy needs, and how they are read out of the HWCAP
//! bits that the auxiliary vector exposes.

use vstd::prelude::*;

verus! {

/// The two instruction-set features the accelerated strategy depends on:
/// the vector extension prerequisite and the carryless-multiply instruction
/// itself. Both must be present before the accelerated path may run.
#[derive(Clone, Copy, Debug, PartialEq, Eq, Structural)]
pub struct Capabilities {
    /// The vector extension prerequisite is present.
    pub vector: bool,
    /// The carryless-multiply instruction is present.
    pub carryless_mul: bool,
}

impl Capabilities {
    /// The accelerated strategy is selected only when both required features
    /// are present; checking just one of the two silently picks an
    /// unavailable instruction on hardware with partial support.
    pub open spec fn spec_accelerated(&self) -> bool {
        self.vector && self.carryless_mul
    }

    /// A capability pair reporting no hardware support at all.
    pub fn none() -> (r: Capabilities)
        ensures
            !r.spec_accelerated(),
            !r.vector,
            !r.carryless_mul,
    {
        Capabilities { vector: false, carryless_mul: false }
    }

    pub fn new(vector: bool, carryless_mul: bool) -> (r: Capabilities)
        ensures
            r.vector == vector,
            r.carryless_mul == carryless_mul,
    {
        Capabilities { vector, carryless_mul }
    }

    #[verifier::when_used_as_spec(spec_accelerated)]
    pub fn accelerated(&self) -> (r: bool)
        ensures
            r == self.spec_accelerated(),
    {
        self.vector && self.carryless_mul
    }
}

/// The auxiliary-vector key under which the kernel reports the hardware
/// capability bits.
pub const AT_HWCAP: u64 = 16;

/// The HWCAP bit that advertises the vector extension.
pub const HWCAP_ASIMD: u64 = 0x2;

/// The HWCAP bit that advertises the carryless-multiply instruction.
pub const HWCAP_PMULL: u64 = 0x10;

/// A 64-bit word read from eight little-endian bytes, the layout of one
/// auxiliary-vector entry half.
pub open spec fn word_from_le_bytes(s: Seq<u8>) -> u64 {
    (s[0] as u64) ^ ((s[1] as u64) << 8u64) ^ ((s[2] as u64) << 16u64) ^ ((s[3] as u64)
        << 24u64) ^ ((s[4] as u64) << 32u64) ^ ((s[5] as u64) << 40u64) ^ ((s[6] as u64)
        << 48u64) ^ ((s[7] as u64) << 56u64)
}

/// The value of the first auxiliary-vector entry at or after byte `i`
/// whose key is `AT_HWCAP`, scanning 16-byte key-value records; `None`
/// when no whole record with that key is left.
pub open spec fn auxv_lookup_from(s: Seq<u8>, i: int) -> Option<u64>
    decreases s.len() - i,
{
    if i + 16 <= s.len() {
        if word_from_le_bytes(s.subrange(i, i + 8)) == AT_HWCAP {
            Some(word_from_le_bytes(s.subrange(i + 8, i + 16)))
        } else {
            auxv_lookup_from(s, i + 16)
        }
    } else {
        None
    }
}

/// One little-endian 64-bit word read out of a byte vector.
fn read_le_word(v: &Vec<u8>, off: usize) -> (r: u64)
    requires
        off + 8 <= v@.len(),
    ensures
        r == word_from_le_bytes(v@.subrange(off as int, off as int + 8)),
{
    let len = v.len();
    proof {
        assert(off + 8 <= len);
    }
    (v[off] as u64) ^ ((v[off + 1] as u64) << 8) ^ ((v[off + 2] as u64) << 16) ^ ((v[off + 3]
        as u64) << 24) ^ ((v[off + 4] as u64) << 32) ^ ((v[off + 5] as u64) << 40) ^ ((v[off + 6]
        as u64) << 48) ^ ((v[off + 7] as u64) << 56)
}

/// Scans the raw contents of the process's auxiliary vector — a sequence
/// of 16-byte records holding a little-endian key and value word each —
/// for the `AT_HWCAP` entry, and hands back its value word if a whole
/// record with that key exists.
pub fn parse_auxv(contents: &Vec<u8>) -> (r: Option<u64>)
    ensures
        r == auxv_lookup_from(contents@, 0),
{
    let mut i: usize = 0;
    while contents.len() - i >= 16
        invariant
            i <= contents.len(),
            auxv_lookup_from(contents@, i as int) == auxv_lookup_from(contents@, 0),
        decreases contents.len() - i,
    {
        let key = read_le_word(contents, i);
        if key == AT_HWCAP {
            return Some(read_le_word(contents, i + 8));
        }
        i += 16;
    }
    None
}

/// Interprets a HWCAP word: the accelerated strategy needs both the
/// vector extension bit and the carryless-multiply bit; either alone is
/// not enough.
pub fn capabilities_from_hwcap(hwcap: u64) -> (r: Capabilities)
    ensures
        r.vector == (hwcap & HWCAP_ASIMD != 0),
        r.carryless_mul == (hwcap & HWCAP_PMULL != 0),
        r.spec_accelerated() == (hwcap & HWCAP_ASIMD != 0 && hwcap & HWCAP_PMULL != 0),
{
    Capabilities { vector: hwcap & HWCAP_ASIMD != 0, carryless_mul: hwcap & HWCAP_PMULL != 0 }
}

} // verus!
