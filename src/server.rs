//! The server side of synchronisation: merging one submitted `(seed, hash)`
//! into a function's stored sketch. Each merge is a point update to the
//! minimum, so merges commute and concurrent writers cannot undo each other.

use crate::sketch::{
    empty_registers, improves, lemma_register_mask, lowered, register_count, scaled_sum, scaled_sum_of,
    DEFAULT_HLL_BITS, EMPTY_REGISTER, MAX_HLL_BITS,
};
use vstd::prelude::*;

verus! {

/// The lowest `(seed, hash)` a function has ever been sent.
#[derive(Clone, Copy, Debug, PartialEq, Eq, Structural)]
pub struct Witness {
    pub seed: u64,
    pub hash: u64,
}

/// A function's persisted sketch: its registers, the number of submissions
/// that improved them, and the lowest witness seen.
#[derive(Clone, Debug)]
pub struct StoredFunction {
    function_id: i64,
    wasm_file_id: i64,
    name: String,
    bits: u8,
    registers: Vec<u64>,
    submitted_updates: u64,
    lowest: Option<Witness>,
}

/// What a merge reports back to the submitter.
#[derive(Clone, Copy, Debug, PartialEq, Eq, Structural)]
pub struct MergeOutcome {
    pub improved: bool,
    pub submitted_updates: u64,
    /// `Z * 2^64` of the registers after the merge, from which the estimate
    /// `alpha_m * m^2 / Z` follows.
    pub scaled_sum: u128,
}

/// Why a submission could not be merged.
#[derive(Clone, Copy, Debug, PartialEq, Eq, Structural)]
pub enum MergeError {
    /// No function has that id and the request did not say how to create it.
    FunctionNotFound,
}

/// The lowest witness after a merge of `(seed, hash)` that improved a register.
pub open spec fn next_lowest(lowest: Option<Witness>, seed: u64, hash: u64) -> Option<Witness> {
    match lowest {
        Some(w) => if hash < w.hash {
            Some(Witness { seed, hash })
        } else {
            lowest
        },
        None => Some(Witness { seed, hash }),
    }
}

/// `after` and `r` are what merging `(seed, hash)` makes of a row with the
/// given fields: the identity and bits stay; the register of `hash` takes the
/// smaller value; only when that lowers it do the update counter rise
/// (saturating) and the lowest witness move to `(seed, hash)` where it is lower.
pub open spec fn merged_from(
    id: i64,
    wasm_file_id: i64,
    name: Seq<char>,
    bits: nat,
    regs: Seq<u64>,
    updates: u64,
    lowest: Option<Witness>,
    after: StoredFunction,
    seed: u64,
    hash: u64,
    r: MergeOutcome,
) -> bool {
    &&& after.wf()
    &&& after.spec_id() == id
    &&& after.spec_wasm_file_id() == wasm_file_id
    &&& after.spec_name() == name
    &&& after.spec_bits() == bits
    &&& r.improved == improves(regs, bits, hash)
    &&& after.spec_registers() == lowered(regs, bits, hash)
    &&& after.spec_updates() == (if r.improved {
        if updates < u64::MAX {
            (updates + 1) as u64
        } else {
            u64::MAX
        }
    } else {
        updates
    })
    &&& after.spec_lowest() == (if r.improved {
        next_lowest(lowest, seed, hash)
    } else {
        lowest
    })
    &&& r.submitted_updates == after.spec_updates()
    &&& r.scaled_sum as nat == scaled_sum(after.spec_registers(), bits)
}

/// `after` and `r` are what merging `(seed, hash)` makes of `before`.
pub open spec fn merged(before: StoredFunction, after: StoredFunction, seed: u64, hash: u64, r: MergeOutcome) -> bool {
    merged_from(
        before.spec_id(),
        before.spec_wasm_file_id(),
        before.spec_name(),
        before.spec_bits(),
        before.spec_registers(),
        before.spec_updates(),
        before.spec_lowest(),
        after,
        seed,
        hash,
        r,
    )
}

impl StoredFunction {
    /// The function's id.
    pub closed spec fn spec_id(&self) -> i64 {
        self.function_id
    }

    /// The module that holds the function.
    pub closed spec fn spec_wasm_file_id(&self) -> i64 {
        self.wasm_file_id
    }

    /// The function's exported name.
    pub closed spec fn spec_name(&self) -> Seq<char> {
        self.name@
    }

    /// Number of submissions that lowered a register.
    pub closed spec fn spec_updates(&self) -> u64 {
        self.submitted_updates
    }

    /// The lowest witness seen.
    pub closed spec fn spec_lowest(&self) -> Option<Witness> {
        self.lowest
    }

    /// Number of register-selection bits.
    pub closed spec fn spec_bits(&self) -> nat {
        self.bits as nat
    }

    /// The stored registers.
    pub closed spec fn spec_registers(&self) -> Seq<u64> {
        self.registers@
    }

    /// Bits in range and one register per index.
    pub closed spec fn wf(&self) -> bool {
        &&& 1 <= self.bits <= MAX_HLL_BITS
        &&& self.registers@.len() == register_count(self.bits as nat)
    }

    /// A fresh row: empty registers, no updates, no witness.
    pub fn new(function_id: i64, wasm_file_id: i64, name: String, bits: u8) -> (r: Self)
        requires
            1 <= bits <= MAX_HLL_BITS,
        ensures
            r.wf(),
            r.spec_id() == function_id,
            r.spec_wasm_file_id() == wasm_file_id,
            r.spec_name() == name@,
            r.spec_bits() == bits,
            r.spec_registers() == empty_registers(bits as nat),
            r.spec_updates() == 0,
            r.spec_lowest() is None,
    {
        proof {
            lemma_register_mask(0, bits as u64);
        }
        let m = (1u64 << bits) as usize;
        let r = StoredFunction {
            function_id,
            wasm_file_id,
            name,
            bits,
            registers: vec![EMPTY_REGISTER; m],
            submitted_updates: 0,
            lowest: None,
        };
        assert(r.spec_registers() =~= empty_registers(bits as nat));
        r
    }

    /// The function's id.
    pub fn function_id(&self) -> (r: i64)
        ensures
            r == self.spec_id(),
    {
        self.function_id
    }

    /// The module that holds the function.
    pub fn wasm_file_id(&self) -> (r: i64)
        ensures
            r == self.spec_wasm_file_id(),
    {
        self.wasm_file_id
    }

    /// The function's exported name.
    pub fn name(&self) -> (r: &str)
        ensures
            r@ == self.spec_name(),
    {
        self.name.as_str()
    }

    /// Number of submissions that lowered a register.
    pub fn submitted_updates(&self) -> (r: u64)
        ensures
            r == self.spec_updates(),
    {
        self.submitted_updates
    }

    /// The lowest witness seen.
    pub fn lowest(&self) -> (r: Option<Witness>)
        ensures
            r == self.spec_lowest(),
    {
        self.lowest
    }

    /// Number of register-selection bits.
    pub fn bits(&self) -> (r: u8)
        ensures
            r as nat == self.spec_bits(),
    {
        self.bits
    }

    /// The stored registers.
    pub fn registers(&self) -> (r: &[u64])
        ensures
            r@ == self.spec_registers(),
    {
        self.registers.as_slice()
    }

    /// Merges `(seed, hash)`: register `hash mod 2^bits` becomes the smaller of
    /// itself and `hash`. Only when that lowers it are the update counter
    /// raised (saturating) and the lowest witness replaced where `hash` is
    /// below it.
    pub fn merge(&mut self, seed: u64, hash: u64) -> (r: MergeOutcome)
        requires
            old(self).wf(),
        ensures
            merged(*old(self), *final(self), seed, hash, r),
    {
        proof {
            lemma_register_mask(hash, self.bits as u64);
        }
        let mask = (1u64 << self.bits) - 1;
        let register = (hash & mask) as usize;
        let improved = hash < self.registers[register];
        if improved {
            self.registers.set(register, hash);
            self.submitted_updates = self.submitted_updates.saturating_add(1);
            let replace = match self.lowest {
                Some(w) => hash < w.hash,
                None => true,
            };
            if replace {
                self.lowest = Some(Witness { seed, hash });
            }
        }
        let sum = scaled_sum_of(self.registers.as_slice(), self.bits);
        MergeOutcome { improved, submitted_updates: self.submitted_updates, scaled_sum: sum }
    }
}

/// Where a submission may create its function: the module and the name.
#[derive(Clone, Debug, PartialEq, Eq)]
pub struct NewFunction {
    pub wasm_file_id: i64,
    pub name: String,
}

/// The server's per-function sketches.
#[derive(Debug)]
pub struct AggregateStore {
    functions: Vec<StoredFunction>,
}

impl AggregateStore {
    /// The stored rows, in order of creation.
    pub closed spec fn rows(&self) -> Seq<StoredFunction> {
        self.functions@
    }

    /// Every row is well formed.
    pub open spec fn wf(&self) -> bool {
        forall|i: int| 0 <= i < self.rows().len() ==> (#[trigger] self.rows()[i]).wf()
    }

    /// Row `i` is the first row of `function_id`.
    pub open spec fn is_row_of(&self, i: int, function_id: i64) -> bool {
        &&& 0 <= i < self.rows().len()
        &&& self.rows()[i].spec_id() == function_id
        &&& forall|j: int| 0 <= j < i ==> #[trigger] self.rows()[j].spec_id() != function_id
    }

    /// A store with no functions.
    pub fn new() -> (r: Self)
        ensures
            r.wf(),
            r.rows().len() == 0,
    {
        AggregateStore { functions: Vec::new() }
    }

    /// Number of stored functions.
    pub fn len(&self) -> (r: usize)
        ensures
            r == self.rows().len(),
    {
        self.functions.len()
    }

    /// The stored function at `index`.
    pub fn get(&self, index: usize) -> (r: &StoredFunction)
        requires
            index < self.rows().len(),
        ensures
            *r == self.rows()[index as int],
    {
        &self.functions[index]
    }

    /// Adds a row (the catalog's upload path).
    pub fn insert(&mut self, row: StoredFunction)
        requires
            old(self).wf(),
            row.wf(),
        ensures
            final(self).wf(),
            final(self).rows() == old(self).rows().push(row),
    {
        let ghost before = self.rows();
        self.functions.push(row);
        assert forall|i: int| 0 <= i < self.rows().len() implies (#[trigger] self.rows()[i]).wf() by {
            if i < before.len() {
                assert(self.rows()[i] == before[i]);
            }
        }
    }

    /// The first row of `function_id`, if any.
    pub fn find(&self, function_id: i64) -> (r: Option<usize>)
        ensures
            r is None <==> forall|i: int| 0 <= i < self.rows().len() ==> #[trigger] self.rows()[i].spec_id() != function_id,
            r is Some ==> self.is_row_of(r->Some_0 as int, function_id),
    {
        let mut i: usize = 0;
        while i < self.functions.len()
            invariant
                i <= self.rows().len(),
                forall|j: int| 0 <= j < i ==> #[trigger] self.rows()[j].spec_id() != function_id,
            decreases self.rows().len() - i,
        {
            if self.functions[i].function_id == function_id {
                assert(self.rows()[i as int].spec_id() == function_id);
                return Some(i);
            }
            i = i + 1;
        }
        None
    }

    /// Merges `(seed, hash)` into function `function_id`. An unknown function is
    /// first created with `DEFAULT_HLL_BITS` empty registers where `create`
    /// says how; without it the result is `FunctionNotFound` and nothing changes.
    pub fn submit(&mut self, function_id: i64, create: Option<NewFunction>, seed: u64, hash: u64) -> (r: Result<
        MergeOutcome,
        MergeError,
    >)
        requires
            old(self).wf(),
        ensures
            final(self).wf(),
            r is Err <==> (create is None && forall|i: int|
                0 <= i < old(self).rows().len() ==> #[trigger] old(self).rows()[i].spec_id() != function_id),
            r is Err ==> final(self).rows() == old(self).rows(),
            r is Ok ==> exists|i: int|
                {
                    &&& #[trigger] final(self).is_row_of(i, function_id)
                    &&& forall|j: int| 0 <= j < final(self).rows().len() && j != i ==> #[trigger] final(self).rows()[j] == old(self).rows()[j]
                    &&& i < old(self).rows().len() ==> {
                        &&& final(self).rows().len() == old(self).rows().len()
                        &&& merged(old(self).rows()[i], final(self).rows()[i], seed, hash, r->Ok_0)
                    }
                    &&& i == old(self).rows().len() ==> {
                        &&& final(self).rows().len() == old(self).rows().len() + 1
                        &&& create is Some
                        &&& merged_from(
                            function_id,
                            create->Some_0.wasm_file_id,
                            create->Some_0.name@,
                            DEFAULT_HLL_BITS as nat,
                            empty_registers(DEFAULT_HLL_BITS as nat),
                            0,
                            None,
                            final(self).rows()[i],
                            seed,
                            hash,
                            r->Ok_0,
                        )
                    }
                    &&& i <= old(self).rows().len()
                },
    {
        let ghost start = self.rows();
        let index = match self.find(function_id) {
            Some(i) => i,
            None => match create {
                Some(spec) => {
                    let row = StoredFunction::new(function_id, spec.wasm_file_id, spec.name, DEFAULT_HLL_BITS);
                    self.insert(row);
                    assert(self.rows()[start.len() as int] == row);
                    assert forall|j: int| 0 <= j < start.len() implies #[trigger] self.rows()[j] == start[j] by {}
                    self.functions.len() - 1
                },
                None => {
                    return Err(MergeError::FunctionNotFound);
                },
            },
        };
        let ghost before = self.rows();
        assert(before[index as int].wf());
        let outcome = self.functions[index].merge(seed, hash);
        proof {
            assert(self.rows() =~= before.update(index as int, self.rows()[index as int]));
            assert forall|i: int| 0 <= i < self.rows().len() implies (#[trigger] self.rows()[i]).wf() by {
                if i != index {
                    assert(self.rows()[i] == before[i]);
                }
            }
            assert(self.is_row_of(index as int, function_id)) by {
                assert forall|j: int| 0 <= j < index implies #[trigger] self.rows()[j].spec_id() != function_id by {
                    assert(self.rows()[j] == before[j]);
                    if j < start.len() {
                        assert(before[j] == start[j]);
                    }
                }
            }
        }
        Ok(outcome)
    }
}

} // verus!
