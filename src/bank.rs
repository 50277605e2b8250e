//! The local sketch bank: per exported function, the worker-side minimum of each
//! register and a mirror of what the server is believed to hold. A register is
//! worth submitting only while its local minimum is strictly below the mirror.

use crate::sketch::{lemma_register_mask, register_count, register_of, EMPTY_REGISTER, MAX_HLL_BITS};
use vstd::prelude::*;

verus! {

/// Catalog identity of one exported function.
#[derive(Clone, Debug, PartialEq, Eq)]
pub struct FunctionInfo {
    pub id: i64,
    pub wasm_file_id: i64,
    pub name: String,
}

/// A register's local minimum and the seed that produced it.
#[derive(Clone, Copy, Debug, PartialEq, Eq, Structural)]
pub struct HashSample {
    pub hash: u64,
    pub seed: u64,
}

/// The sample of a register that has observed nothing.
pub open spec fn empty_sample() -> HashSample {
    HashSample { hash: EMPTY_REGISTER, seed: 0 }
}

/// One improvement to send: the sample of `register` in slot `slot_index`,
/// with the identity of its function.
#[derive(Clone, Debug, PartialEq, Eq)]
pub struct Submission {
    pub slot_index: usize,
    pub function_id: i64,
    pub wasm_file_id: i64,
    pub function_name: String,
    pub register: usize,
    pub seed: u64,
    pub hash: u64,
}

/// Which improvement `next_submission` sends first.
#[derive(Clone, Copy, Debug, PartialEq, Eq, Structural)]
pub enum SubmissionOrder {
    /// The largest improving hash first: registers that may soon improve again
    /// locally are sent last.
    LargestFirst,
    /// The smallest improving hash first.
    SmallestFirst,
}

/// Whether hash `a` is preferred over `b` under `order`, or equal to it.
pub open spec fn ranks_at_least(order: SubmissionOrder, a: u64, b: u64) -> bool {
    match order {
        SubmissionOrder::LargestFirst => a >= b,
        SubmissionOrder::SmallestFirst => a <= b,
    }
}

/// Whether hash `a` is strictly preferred over `b` under `order`.
pub open spec fn ranks_above(order: SubmissionOrder, a: u64, b: u64) -> bool {
    match order {
        SubmissionOrder::LargestFirst => a > b,
        SubmissionOrder::SmallestFirst => a < b,
    }
}

/// Position `(s2, r2)` comes before `(s, r)` in the scan: slots in order,
/// registers in order within a slot.
pub open spec fn scanned_before(s2: int, r2: int, s: int, r: int) -> bool {
    s2 < s || (s2 == s && r2 < r)
}

/// Per-function state of the bank.
#[derive(Debug)]
pub struct FunctionSlot {
    pub meta: FunctionInfo,
    local: Vec<HashSample>,
    server: Vec<u64>,
}

/// Shared submission state: the slots of all functions, each with its local
/// registers and its mirror of the server's registers.
#[derive(Debug)]
pub struct SubmissionState {
    bits: u8,
    order: SubmissionOrder,
    slots: Vec<FunctionSlot>,
}

/// `n` empty samples.
fn empty_samples(n: usize) -> (r: Vec<HashSample>)
    ensures
        r@ == Seq::new(n as nat, |i: int| empty_sample()),
{
    let mut v: Vec<HashSample> = Vec::new();
    while v.len() < n
        invariant
            v@.len() <= n,
            v@ == Seq::new(v@.len(), |i: int| empty_sample()),
        decreases n - v@.len(),
    {
        v.push(HashSample { hash: EMPTY_REGISTER, seed: 0 });
        assert(v@ =~= Seq::new(v@.len(), |i: int| empty_sample()));
    }
    v
}

impl SubmissionState {
    /// Number of register-selection bits.
    pub closed spec fn spec_bits(&self) -> nat {
        self.bits as nat
    }

    /// The policy that picks among improvements.
    pub closed spec fn spec_order(&self) -> SubmissionOrder {
        self.order
    }

    /// The function of each slot.
    pub closed spec fn infos(&self) -> Seq<FunctionInfo> {
        self.slots@.map_values(|s: FunctionSlot| s.meta)
    }

    /// The local samples of each slot, by register.
    pub closed spec fn locals(&self) -> Seq<Seq<HashSample>> {
        self.slots@.map_values(|s: FunctionSlot| s.local@)
    }

    /// The mirrored server registers of each slot.
    pub closed spec fn mirrors(&self) -> Seq<Seq<u64>> {
        self.slots@.map_values(|s: FunctionSlot| s.server@)
    }

    /// Register `r` of slot `s` holds a local sample below its mirror.
    pub open spec fn is_candidate(&self, s: int, r: int) -> bool {
        &&& 0 <= s < self.locals().len()
        &&& 0 <= r < self.locals()[s].len()
        &&& self.locals()[s][r].hash < self.mirrors()[s][r]
    }

    /// Bits in range; every slot has one local sample and one mirror entry per
    /// register; a non-empty local sample sits in the register its hash selects.
    pub open spec fn wf(&self) -> bool {
        &&& 1 <= self.spec_bits() <= MAX_HLL_BITS
        &&& self.locals().len() == self.infos().len()
        &&& self.mirrors().len() == self.infos().len()
        &&& forall|s: int|
            0 <= s < self.infos().len() ==> (#[trigger] self.locals()[s]).len() == register_count(
                self.spec_bits(),
            )
        &&& forall|s: int|
            0 <= s < self.infos().len() ==> (#[trigger] self.mirrors()[s]).len() == register_count(
                self.spec_bits(),
            )
        &&& forall|s: int, r: int|
            0 <= s < self.infos().len() && 0 <= r < register_count(self.spec_bits()) ==> {
                let h = (#[trigger] self.locals()[s][r]).hash;
                h == EMPTY_REGISTER || register_of(h, self.spec_bits()) == r
            }
    }

    /// One slot per function, in order, every local register and every mirror
    /// entry empty; improvements are sent largest first.
    pub fn new(bits: u8, functions: Vec<FunctionInfo>) -> (r: Self)
        requires
            1 <= bits <= MAX_HLL_BITS,
        ensures
            r.wf(),
            r.spec_bits() == bits,
            r.spec_order() == SubmissionOrder::LargestFirst,
            r.infos() == functions@,
            forall|s: int, i: int|
                0 <= s < functions@.len() && 0 <= i < register_count(bits as nat) ==> #[trigger] r.locals()[s][i]
                    == empty_sample() && r.mirrors()[s][i] == EMPTY_REGISTER,
    {
        proof {
            lemma_register_mask(0, bits as u64);
        }
        let registers = (1u64 << bits) as usize;
        let mut slots: Vec<FunctionSlot> = Vec::new();
        let mut functions = functions;
        let ghost all = functions@;
        let mut taken: usize = 0;
        let n = functions.len();
        // Slots are built back to front, taking each function from the end.
        while functions.len() > 0
            invariant
                n == all.len(),
                functions@ == all.take(n - slots@.len()),
                slots@.len() <= n,
                registers == register_count(bits as nat),
                forall|k: int|
                    0 <= k < slots@.len() ==> (#[trigger] slots@[k]).meta == all[n - slots@.len() + k]
                        && slots@[k].local@ == Seq::new(registers as nat, |i: int| empty_sample())
                        && slots@[k].server@ == Seq::new(registers as nat, |i: int| EMPTY_REGISTER),
            decreases functions.len(),
        {
            let meta = functions.pop().unwrap();
            let slot = FunctionSlot { meta, local: empty_samples(registers), server: vec![EMPTY_REGISTER; registers] };
            assert(slot.local@ =~= Seq::new(registers as nat, |i: int| empty_sample()));
            assert(slot.server@ =~= Seq::new(registers as nat, |i: int| EMPTY_REGISTER));
            slots.insert(0, slot);
            assert(functions@ =~= all.take(n - slots@.len()));
        }
        let r = SubmissionState { bits, order: SubmissionOrder::LargestFirst, slots };
        assert(r.infos() =~= all);
        r
    }

    /// Chooses which improvement `next_submission` sends first.
    pub fn set_order(&mut self, order: SubmissionOrder)
        ensures
            final(self).spec_order() == order,
            final(self).spec_bits() == old(self).spec_bits(),
            final(self).infos() == old(self).infos(),
            final(self).locals() == old(self).locals(),
            final(self).mirrors() == old(self).mirrors(),
    {
        self.order = order;
    }

    /// Number of function slots.
    pub fn slot_count(&self) -> (r: usize)
        ensures
            r == self.infos().len(),
    {
        self.slots.len()
    }

    /// The register that `hash` lands in.
    pub fn register_for_hash(&self, hash: u64) -> (r: usize)
        requires
            self.wf(),
        ensures
            r as nat == register_of(hash, self.spec_bits()),
            r < register_count(self.spec_bits()),
    {
        proof {
            lemma_register_mask(hash, self.bits as u64);
        }
        let mask = (1u64 << self.bits) - 1;
        (hash & mask) as usize
    }
    /// Records `(hash, seed)` in slot `slot_index` where it lowers the local
    /// register of `hash`. Returns whether the submission pipeline should wake:
    /// the local register was lowered and the hash is also below the mirror.
    pub fn update_local(&mut self, slot_index: usize, hash: u64, seed: u64) -> (r: bool)
        requires
            old(self).wf(),
            slot_index < old(self).infos().len(),
        ensures
            final(self).wf(),
            final(self).spec_bits() == old(self).spec_bits(),
            final(self).spec_order() == old(self).spec_order(),
            final(self).infos() == old(self).infos(),
            final(self).mirrors() == old(self).mirrors(),
            ({
                let reg = register_of(hash, old(self).spec_bits()) as int;
                let lowered = hash < old(self).locals()[slot_index as int][reg].hash;
                &&& final(self).locals() == (if lowered {
                    old(self).locals().update(
                        slot_index as int,
                        old(self).locals()[slot_index as int].update(reg, HashSample { hash, seed }),
                    )
                } else {
                    old(self).locals()
                })
                &&& r == (lowered && hash < old(self).mirrors()[slot_index as int][reg])
            }),
    {
        let register = self.register_for_hash(hash);
        assert(self.locals()[slot_index as int] == self.slots@[slot_index as int].local@);
        assert(self.mirrors()[slot_index as int] == self.slots@[slot_index as int].server@);
        if hash < self.slots[slot_index].local[register].hash {
            let ghost before = *self;
            self.slots[slot_index].local.set(register, HashSample { hash, seed });
            proof {
                assert(self.locals() =~= before.locals().update(
                    slot_index as int,
                    before.locals()[slot_index as int].update(register as int, HashSample { hash, seed }),
                ));
                assert(self.infos() =~= before.infos());
                assert(self.mirrors() =~= before.mirrors());
            }
            hash < self.slots[slot_index].server[register]
        } else {
            false
        }
    }
    /// Slot `s` is the last slot of function `id`, the one that lookups by id find.
    pub open spec fn is_slot_of(&self, s: int, id: i64) -> bool {
        &&& 0 <= s < self.infos().len()
        &&& self.infos()[s].id == id
        &&& forall|t: int| s < t < self.infos().len() ==> #[trigger] self.infos()[t].id != id
    }

    /// `sub` is the improvement to send first: a candidate register, the first
    /// in scan order among those whose hash ranks highest under the order.
    pub open spec fn is_next(&self, sub: Submission) -> bool {
        let s = sub.slot_index as int;
        let reg = sub.register as int;
        &&& self.is_candidate(s, reg)
        &&& sub.hash == self.locals()[s][reg].hash
        &&& sub.seed == self.locals()[s][reg].seed
        &&& sub.function_id == self.infos()[s].id
        &&& sub.wasm_file_id == self.infos()[s].wasm_file_id
        &&& sub.function_name@ == self.infos()[s].name@
        &&& forall|s2: int, r2: int|
            #[trigger] self.is_candidate(s2, r2) ==> ranks_at_least(
                self.spec_order(),
                sub.hash,
                self.locals()[s2][r2].hash,
            ) && (scanned_before(s2, r2, s, reg) ==> self.locals()[s2][r2].hash != sub.hash)
    }

    /// The improvement to send next, if any register of any slot has a local
    /// minimum strictly below its mirror. Every submission it yields is below
    /// the mirror of the register its hash selects.
    pub fn next_submission(&self) -> (r: Option<Submission>)
        requires
            self.wf(),
        ensures
            r is None <==> !exists|s: int, reg: int| self.is_candidate(s, reg),
            r is Some ==> self.is_next(r->Some_0),
            r is Some ==> r->Some_0.hash < self.mirrors()[r->Some_0.slot_index as int][r->Some_0.register as int],
            r is Some ==> r->Some_0.register as nat == register_of(r->Some_0.hash, self.spec_bits()),
    {
        proof {
            lemma_register_mask(0, self.bits as u64);
        }
        let m = (1u64 << self.bits) as usize;
        let mut best: Option<(usize, usize)> = None;
        let mut best_hash: u64 = 0;
        let mut s: usize = 0;
        while s < self.slots.len()
            invariant
                self.wf(),
                m == register_count(self.spec_bits()),
                s <= self.infos().len(),
                self.slots@.len() == self.infos().len(),
                best is None <==> !exists|s2: int, r2: int|
                    #[trigger] self.is_candidate(s2, r2) && scanned_before(s2, r2, s as int, 0),
                best matches Some(p) ==> {
                    &&& self.is_candidate(p.0 as int, p.1 as int)
                    &&& scanned_before(p.0 as int, p.1 as int, s as int, 0)
                    &&& best_hash == self.locals()[p.0 as int][p.1 as int].hash
                    &&& forall|s2: int, r2: int|
                        #[trigger] self.is_candidate(s2, r2) && scanned_before(s2, r2, s as int, 0)
                            ==> ranks_at_least(self.spec_order(), best_hash, self.locals()[s2][r2].hash)
                            && (scanned_before(s2, r2, p.0 as int, p.1 as int)
                                ==> self.locals()[s2][r2].hash != best_hash)
                },
            decreases self.infos().len() - s,
        {
            let slot = &self.slots[s];
            assert(self.locals()[s as int] == slot.local@);
            assert(self.mirrors()[s as int] == slot.server@);
            let mut reg: usize = 0;
            while reg < m
                invariant
                    self.wf(),
                    m == register_count(self.spec_bits()),
                    s < self.infos().len(),
                    reg <= m,
                    slot == self.slots@[s as int],
                    self.locals()[s as int] == slot.local@,
                    self.mirrors()[s as int] == slot.server@,
                    best is None <==> !exists|s2: int, r2: int|
                        #[trigger] self.is_candidate(s2, r2) && scanned_before(s2, r2, s as int, reg as int),
                    best matches Some(p) ==> {
                        &&& self.is_candidate(p.0 as int, p.1 as int)
                        &&& scanned_before(p.0 as int, p.1 as int, s as int, reg as int)
                        &&& best_hash == self.locals()[p.0 as int][p.1 as int].hash
                        &&& forall|s2: int, r2: int|
                            #[trigger] self.is_candidate(s2, r2) && scanned_before(s2, r2, s as int, reg as int)
                                ==> ranks_at_least(self.spec_order(), best_hash, self.locals()[s2][r2].hash)
                                && (scanned_before(s2, r2, p.0 as int, p.1 as int)
                                    ==> self.locals()[s2][r2].hash != best_hash)
                    },
                decreases m - reg,
            {
                let sample = slot.local[reg];
                assert(self.is_candidate(s as int, reg as int) <==> sample.hash < slot.server[reg as int]);
                let ghost old_best = best;
                if sample.hash < slot.server[reg] {
                    let replace = match best {
                        None => true,
                        Some(_) => match self.order {
                            SubmissionOrder::LargestFirst => sample.hash > best_hash,
                            SubmissionOrder::SmallestFirst => sample.hash < best_hash,
                        },
                    };
                    if replace {
                        best = Some((s, reg));
                        best_hash = sample.hash;
                    }
                }
                proof {
                    if self.is_candidate(s as int, reg as int) {
                        assert(scanned_before(s as int, reg as int, s as int, reg + 1));
                    } else {
                        assert forall|s2: int, r2: int|
                            #[trigger] self.is_candidate(s2, r2) && scanned_before(s2, r2, s as int, reg + 1)
                            implies scanned_before(s2, r2, s as int, reg as int) by {
                            if s2 == s && r2 == reg {
                                assert(self.is_candidate(s as int, reg as int));
                            }
                        }
                    }
                }
                reg = reg + 1;
            }
            s = s + 1;
            proof {
                assert forall|s2: int, r2: int|
                    self.is_candidate(s2, r2) && scanned_before(s2, r2, s as int, 0) implies
                    scanned_before(s2, r2, (s - 1) as int, m as int) by {}
            }
        }
        match best {
            None => {
                assert forall|s2: int, r2: int| !self.is_candidate(s2, r2) by {
                    if self.is_candidate(s2, r2) {
                        assert(scanned_before(s2, r2, s as int, 0));
                    }
                }
                None
            },
            Some((bs, br)) => {
                let slot = &self.slots[bs];
                assert(self.locals()[bs as int] == slot.local@);
                assert(self.infos()[bs as int] == slot.meta);
                let sample = slot.local[br];
                let sub = Submission {
                    slot_index: bs,
                    function_id: slot.meta.id,
                    wasm_file_id: slot.meta.wasm_file_id,
                    function_name: slot.meta.name.clone(),
                    register: br,
                    seed: sample.seed,
                    hash: sample.hash,
                };
                assert forall|s2: int, r2: int| #[trigger] self.is_candidate(s2, r2) implies scanned_before(
                    s2,
                    r2,
                    s as int,
                    0,
                ) by {}
                Some(sub)
            },
        }
    }
    /// Lowers register `register` of slot `slot_index`'s mirror to `hash` where
    /// `hash` is below it; a slot index out of range changes nothing.
    pub fn mark_server_seen(&mut self, slot_index: usize, register: usize, hash: u64)
        requires
            old(self).wf(),
            register < register_count(old(self).spec_bits()),
        ensures
            final(self).wf(),
            final(self).spec_bits() == old(self).spec_bits(),
            final(self).spec_order() == old(self).spec_order(),
            final(self).infos() == old(self).infos(),
            final(self).locals() == old(self).locals(),
            final(self).mirrors() == (if slot_index < old(self).infos().len() && hash
                < old(self).mirrors()[slot_index as int][register as int] {
                old(self).mirrors().update(
                    slot_index as int,
                    old(self).mirrors()[slot_index as int].update(register as int, hash),
                )
            } else {
                old(self).mirrors()
            }),
    {
        if slot_index < self.slots.len() {
            assert(self.mirrors()[slot_index as int] == self.slots@[slot_index as int].server@);
            if hash < self.slots[slot_index].server[register] {
                let ghost before = *self;
                self.slots[slot_index].server.set(register, hash);
                proof {
                    assert(self.mirrors() =~= before.mirrors().update(
                        slot_index as int,
                        before.mirrors()[slot_index as int].update(register as int, hash),
                    ));
                    assert(self.infos() =~= before.infos());
                    assert(self.locals() =~= before.locals());
                }
            }
        }
    }

    /// The slot of function `function_id`: the last slot with that id, if any.
    pub fn slot_for_function(&self, function_id: i64) -> (r: Option<usize>)
        ensures
            r is None <==> forall|s: int| 0 <= s < self.infos().len() ==> #[trigger] self.infos()[s].id != function_id,
            r is Some ==> self.is_slot_of(r->Some_0 as int, function_id),
    {
        let mut i: usize = self.slots.len();
        while i > 0
            invariant
                i <= self.infos().len(),
                self.slots@.len() == self.infos().len(),
                forall|t: int| i <= t < self.infos().len() ==> #[trigger] self.infos()[t].id != function_id,
            decreases i,
        {
            assert(self.infos()[i - 1] == self.slots@[i - 1].meta);
            if self.slots[i - 1].meta.id == function_id {
                return Some(i - 1);
            }
            i = i - 1;
        }
        None
    }

    /// Primes the mirror of function `function_id` with the server's registers:
    /// each mirror entry `i` below `hashes.len()` becomes the smaller of itself
    /// and `hashes[i]`. An unknown function changes nothing.
    pub fn initialize_server_hashes(&mut self, function_id: i64, hashes: &[u64])
        requires
            old(self).wf(),
        ensures
            final(self).wf(),
            final(self).spec_bits() == old(self).spec_bits(),
            final(self).spec_order() == old(self).spec_order(),
            final(self).infos() == old(self).infos(),
            final(self).locals() == old(self).locals(),
            final(self).mirrors().len() == old(self).mirrors().len(),
            forall|s: int|
                0 <= s < old(self).infos().len() ==> #[trigger] final(self).mirrors()[s] == (
                if old(self).is_slot_of(s, function_id) {
                    Seq::new(
                        old(self).mirrors()[s].len(),
                        |i: int|
                            if i < hashes@.len() && hashes@[i] < old(self).mirrors()[s][i] {
                                hashes@[i]
                            } else {
                                old(self).mirrors()[s][i]
                            },
                    )
                } else {
                    old(self).mirrors()[s]
                }),
    {
        let found = self.slot_for_function(function_id);
        let slot_index = match found {
            Some(i) => i,
            None => {
                return;
            },
        };
        proof {
            lemma_register_mask(0, self.bits as u64);
        }
        let ghost start = *self;
        let m = (1u64 << self.bits) as usize;
        assert forall|s: int| 0 <= s < self.infos().len() && s != slot_index implies !self.is_slot_of(s, function_id) by {
            if s < slot_index {
                assert(self.infos()[slot_index as int].id == function_id);
            }
        }
        assert(self.mirrors()[slot_index as int] == self.slots@[slot_index as int].server@);
        let mut idx: usize = 0;
        while idx < m && idx < hashes.len()
            invariant
                self.wf(),
                slot_index < self.infos().len(),
                m == register_count(self.spec_bits()),
                idx <= m,
                self.spec_bits() == start.spec_bits(),
                self.spec_order() == start.spec_order(),
                self.infos() == start.infos(),
                self.locals() == start.locals(),
                self.mirrors().len() == start.mirrors().len(),
                self.slots@.len() == start.infos().len(),
                forall|s: int| 0 <= s < start.infos().len() && s != slot_index ==> #[trigger] self.mirrors()[s] == start.mirrors()[s],
                self.mirrors()[slot_index as int] == self.slots@[slot_index as int].server@,
                self.mirrors()[slot_index as int].len() == m,
                forall|i: int| 0 <= i < m ==> #[trigger] self.mirrors()[slot_index as int][i] == (
                    if i < idx && i < hashes@.len() && hashes@[i] < start.mirrors()[slot_index as int][i] {
                        hashes@[i]
                    } else {
                        start.mirrors()[slot_index as int][i]
                    }),
            decreases m - idx,
        {
            let h = hashes[idx];
            if h < self.slots[slot_index].server[idx] {
                let ghost before = *self;
                self.slots[slot_index].server.set(idx, h);
                proof {
                    assert(self.mirrors() =~= before.mirrors().update(
                        slot_index as int,
                        before.mirrors()[slot_index as int].update(idx as int, h),
                    ));
                    assert(self.infos() =~= before.infos());
                    assert(self.locals() =~= before.locals());
                }
            }
            idx = idx + 1;
        }
        proof {
            assert(self.mirrors()[slot_index as int] =~= Seq::new(
                start.mirrors()[slot_index as int].len(),
                |i: int|
                    if i < hashes@.len() && hashes@[i] < start.mirrors()[slot_index as int][i] {
                        hashes@[i]
                    } else {
                        start.mirrors()[slot_index as int][i]
                    },
            ));
        }
    }
}

} // verus!
