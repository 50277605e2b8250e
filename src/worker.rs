//! Worker-side state: the per-function local sketch that filters hashes
//! before they reach the shared bank, and the keys that stop a run.

use crate::sketch::{empty_registers, improves, lemma_register_mask, lowered, register_count, EMPTY_REGISTER, MAX_HLL_BITS};
use vstd::prelude::*;

verus! {

/// A worker's private sketch of one function: register minimums only. A hash
/// reaches the shared bank only where it lowers one of these.
#[derive(Clone, Debug)]
pub struct LocalHyperLogLog {
    bits: u8,
    hashes: Vec<u64>,
}

impl LocalHyperLogLog {
    /// Number of register-selection bits.
    pub closed spec fn spec_bits(&self) -> nat {
        self.bits as nat
    }

    /// The register minimums.
    pub closed spec fn registers(&self) -> Seq<u64> {
        self.hashes@
    }

    /// At most `MAX_HLL_BITS` bits and one register per index.
    pub closed spec fn wf(&self) -> bool {
        self.bits <= MAX_HLL_BITS && self.hashes@.len() == register_count(self.bits as nat)
    }

    /// `2^bits` empty registers.
    pub fn new(bits: u8) -> (r: Self)
        requires
            bits <= MAX_HLL_BITS,
        ensures
            r.wf(),
            r.spec_bits() == bits,
            r.registers() == empty_registers(bits as nat),
    {
        proof {
            lemma_register_mask(0, bits as u64);
        }
        let m = (1u64 << bits) as usize;
        let r = LocalHyperLogLog { bits, hashes: vec![EMPTY_REGISTER; m] };
        assert(r.registers() =~= empty_registers(bits as nat));
        r
    }

    /// Observes `hash`; returns whether it lowered its register.
    pub fn add_hash(&mut self, hash: u64) -> (r: bool)
        requires
            old(self).wf(),
        ensures
            final(self).wf(),
            final(self).spec_bits() == old(self).spec_bits(),
            r == improves(old(self).registers(), old(self).spec_bits(), hash),
            final(self).registers() == lowered(old(self).registers(), old(self).spec_bits(), hash),
    {
        proof {
            lemma_register_mask(hash, self.bits as u64);
        }
        let mask = (1u64 << self.bits) - 1;
        let register = (hash & mask) as usize;
        if hash < self.hashes[register] {
            self.hashes.set(register, hash);
            return true;
        }
        false
    }
}

/// A byte read from the terminal that asks the run to stop: Ctrl-C, `q` or `Q`.
pub open spec fn stops_run(byte: u8) -> bool {
    byte == 3 || byte == 0x71 || byte == 0x51
}

/// Whether a byte read from the terminal asks the run to stop.
pub fn is_stop_key(byte: u8) -> (r: bool)
    ensures
        r == stops_run(byte),
{
    byte == 3 || byte == 0x71 || byte == 0x51
}

} // verus!
