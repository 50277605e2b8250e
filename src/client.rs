//! The sketch as the browser demo keeps it: the same min-hash registers and
//! seeds, without serialisation.

use crate::sketch::{
    clamp_bits, empty_registers, improves, lemma_register_mask, lowered, register_count, witnessed,
    EMPTY_REGISTER, MAX_HLL_BITS,
};
use vstd::prelude::*;

verus! {

/// Min-hash HyperLogLog with `2^bits` registers and the seed of each minimum.
#[derive(Clone, Debug)]
pub struct HyperLogLog {
    bits: u8,
    seeds: Vec<u64>,
    hashes: Vec<u64>,
}

impl HyperLogLog {
    /// Number of register-selection bits.
    pub closed spec fn spec_bits(&self) -> nat {
        self.bits as nat
    }

    /// The register minimums.
    pub closed spec fn registers(&self) -> Seq<u64> {
        self.hashes@
    }

    /// The seed behind each register's minimum.
    pub closed spec fn witnesses(&self) -> Seq<u64> {
        self.seeds@
    }

    /// Between 1 and `MAX_HLL_BITS` bits, one register and one seed per index.
    pub closed spec fn wf(&self) -> bool {
        &&& 1 <= self.bits <= MAX_HLL_BITS
        &&& self.hashes@.len() == register_count(self.bits as nat)
        &&& self.seeds@.len() == self.hashes@.len()
    }

    /// `2^clamp(bits)` empty registers with zero seeds, `bits` clamped into
    /// `[1, MAX_HLL_BITS]`.
    pub fn new(bits: u8) -> (r: Self)
        ensures
            r.wf(),
            r.spec_bits() == clamp_bits(bits),
            r.registers() == empty_registers(clamp_bits(bits)),
            r.witnesses() == Seq::new(register_count(clamp_bits(bits)), |i: int| 0u64),
    {
        let bits = crate::sketch::HyperLogLog::normalize_bits(bits);
        proof {
            lemma_register_mask(0, bits as u64);
        }
        let m = (1u64 << bits) as usize;
        let r = HyperLogLog { bits, seeds: vec![0u64; m], hashes: vec![EMPTY_REGISTER; m] };
        assert(r.registers() =~= empty_registers(clamp_bits(bits)));
        assert(r.witnesses() =~= Seq::new(register_count(clamp_bits(bits)), |i: int| 0u64));
        r
    }

    /// Observes `hash`, produced by `seed`: where it lowers its register, the
    /// register and its seed are replaced.
    pub fn add(&mut self, seed: u64, hash: u64)
        requires
            old(self).wf(),
        ensures
            final(self).wf(),
            final(self).spec_bits() == old(self).spec_bits(),
            final(self).registers() == lowered(old(self).registers(), old(self).spec_bits(), hash),
            final(self).witnesses() == witnessed(
                old(self).witnesses(),
                old(self).registers(),
                old(self).spec_bits(),
                seed,
                hash,
            ),
    {
        proof {
            lemma_register_mask(hash, self.bits as u64);
        }
        let mask = (1u64 << self.bits) - 1;
        let register = (hash & mask) as usize;
        if hash < self.hashes[register] {
            self.hashes.set(register, hash);
            self.seeds.set(register, seed);
        }
    }

    /// The register minimums.
    pub fn hashes(&self) -> (r: &[u64])
        ensures
            r@ == self.registers(),
    {
        self.hashes.as_slice()
    }
}

} // verus!
