//! The min-hash HyperLogLog sketch: each register keeps the smallest hash
//! whose low bits select it, together with the seed that produced it.

use vstd::arithmetic::power2::{lemma2_to64, lemma_pow2_pos, pow2};
use vstd::bits::{lemma_u64_low_bits_mask_is_mod, lemma_u64_shl_is_mul, low_bits_mask};
use crate::decimal::{decimal_string, decimal_text, lemma_decimal_round_trip, parse_u64, parsed_u64};
use crate::encoding::{
    digit_items, json_string_list, list_text, read_string_list, string_views, write_string_list,
};
use vstd::prelude::*;
use vstd::std_specs::bits::{axiom_u64_leading_zeros, u64_leading_zeros};

verus! {

/// Register-selection bits used where nothing else is specified (32 registers).
pub const DEFAULT_HLL_BITS: u8 = 5;

/// Largest accepted number of register-selection bits (about a million registers).
pub const MAX_HLL_BITS: u8 = 20;

/// Marker of a register that has not observed any hash.
pub const EMPTY_REGISTER: u64 = 0xffff_ffff_ffff_ffff;

/// `bits` clamped into `[1, MAX_HLL_BITS]`.
pub open spec fn clamp_bits(bits: u8) -> nat {
    if bits < 1 {
        1
    } else if bits > MAX_HLL_BITS {
        MAX_HLL_BITS as nat
    } else {
        bits as nat
    }
}

/// Number of registers of a sketch with `bits` selection bits.
pub open spec fn register_count(bits: nat) -> nat {
    pow2(bits)
}

/// The register that `hash` lands in: its low `bits` bits.
pub open spec fn register_of(hash: u64, bits: nat) -> nat {
    (hash as nat) % pow2(bits)
}

/// Whether `hash` is below the current minimum of its register.
pub open spec fn improves(regs: Seq<u64>, bits: nat, hash: u64) -> bool {
    hash < regs[register_of(hash, bits) as int]
}

/// Registers after observing `hash`: its register takes the smaller value.
pub open spec fn lowered(regs: Seq<u64>, bits: nat, hash: u64) -> Seq<u64> {
    if improves(regs, bits, hash) {
        regs.update(register_of(hash, bits) as int, hash)
    } else {
        regs
    }
}

/// Witness seeds after observing `(seed, hash)` over the registers `regs`.
pub open spec fn witnessed(seeds: Seq<u64>, regs: Seq<u64>, bits: nat, seed: u64, hash: u64) -> Seq<u64> {
    if improves(regs, bits, hash) {
        seeds.update(register_of(hash, bits) as int, seed)
    } else {
        seeds
    }
}

/// A fresh register array: every register empty.
pub open spec fn empty_registers(bits: nat) -> Seq<u64> {
    Seq::new(register_count(bits), |i: int| EMPTY_REGISTER)
}

/// Registers after observing each hash of `hashes` in order.
pub open spec fn lowered_all(regs: Seq<u64>, bits: nat, hashes: Seq<u64>) -> Seq<u64>
    decreases hashes.len(),
{
    if hashes.len() == 0 {
        regs
    } else {
        lowered(lowered_all(regs, bits, hashes.drop_last()), bits, hashes.last())
    }
}

/// The run length `rho` that the estimator reads from a register value:
/// leading zeros of `hash >> bits`, less `bits` (saturating), plus one.
pub open spec fn rho_of(hash: u64, bits: nat) -> nat {
    let lz = u64_leading_zeros(hash >> (bits as u64));
    (if lz >= bits { lz - bits } else { 0 }) as nat + 1
}

/// A register's share of the estimator's sum `Z`, scaled by `2^64`:
/// `2^(64 - rho)`, or 0 for an empty register.
pub open spec fn scaled_weight(hash: u64, bits: nat) -> nat {
    if hash == EMPTY_REGISTER {
        0
    } else {
        pow2((64 - rho_of(hash, bits)) as nat)
    }
}

/// `Z * 2^64`, where `Z` is the sum of `2^-rho` over the non-empty registers.
pub open spec fn scaled_sum(regs: Seq<u64>, bits: nat) -> nat
    decreases regs.len(),
{
    if regs.len() == 0 {
        0
    } else {
        scaled_sum(regs.drop_last(), bits) + scaled_weight(regs.last(), bits)
    }
}

/// Registers restored from a list of decimal texts: entry `i` where it exists
/// and parses as a `u64`, the empty marker everywhere else (and everywhere
/// when there is no list).
pub open spec fn restored_registers(bits: nat, items: Option<Seq<Seq<char>>>) -> Seq<u64> {
    Seq::new(
        register_count(bits),
        |i: int|
            match items {
                Some(v) => if i < v.len() && parsed_u64(v[i]) is Some {
                    parsed_u64(v[i])->Some_0
                } else {
                    EMPTY_REGISTER
                },
                None => EMPTY_REGISTER,
            },
    )
}

/// The decimal text of each register.
pub open spec fn registers_text(regs: Seq<u64>) -> Seq<Seq<char>> {
    regs.map_values(|h: u64| decimal_text(h as nat))
}

/// `regs` is what decoding `text` gives wherever `text` is the compact array
/// of some list of digit strings.
pub open spec fn decodes_compact(bits: nat, text: Seq<char>, regs: Seq<u64>) -> bool {
    forall|items: Seq<Seq<char>>|
        digit_items(items) && text == #[trigger] list_text(items) ==> regs == restored_registers(
            bits,
            Some(items),
        )
}

/// Decoding the JSON text of a register array gives back the same registers:
/// `from_json(b, to_json(x))` has the registers of `x` (seeds are not encoded).
pub proof fn lemma_json_round_trip(regs: Seq<u64>, bits: nat, decoded: Seq<u64>)
    requires
        regs.len() == register_count(bits),
        decodes_compact(bits, list_text(registers_text(regs)), decoded),
    ensures
        decoded == regs,
{
    let items = registers_text(regs);
    assert forall|i: int| 0 <= i < items.len() implies crate::decimal::all_digits(
        #[trigger] items[i],
    ) by {
        crate::decimal::lemma_decimal_text(regs[i] as nat);
    }
    assert(digit_items(items));
    assert forall|i: int| 0 <= i < regs.len() implies parsed_u64(#[trigger] items[i]) == Some(
        regs[i],
    ) by {
        lemma_decimal_round_trip(regs[i]);
    }
    assert(decoded =~= regs);
}

/// Shows that `1 << bits` is `2^bits` and that masking with `(1 << bits) - 1`
/// selects the register of a hash.
pub proof fn lemma_register_mask(hash: u64, bits: u64)
    requires
        bits <= MAX_HLL_BITS,
    ensures
        (1u64 << bits) as nat == pow2(bits as nat),
        0 < pow2(bits as nat) <= 0x10_0000,
        register_of(hash, bits as nat) < pow2(bits as nat),
        (hash & (((1u64 << bits) - 1) as u64)) as nat == register_of(hash, bits as nat),
{
    vstd::bits::lemma_u64_pow2_no_overflow(bits as nat);
    lemma_pow2_pos(bits as nat);
    lemma_u64_shl_is_mul(1u64, bits);
    lemma_u64_low_bits_mask_is_mod(hash, bits as nat);
    lemma2_to64();
    if bits < 20 {
        vstd::arithmetic::power2::lemma_pow2_strictly_increases(bits as nat, 20);
    }
}

/// Observing a hash never raises a register: each register afterwards is at
/// most what it was before.
pub proof fn lemma_add_monotone(regs: Seq<u64>, bits: nat, hash: u64)
    requires
        regs.len() == register_count(bits),
    ensures
        lowered(regs, bits, hash).len() == regs.len(),
        forall|i: int| 0 <= i < regs.len() ==> #[trigger] lowered(regs, bits, hash)[i] <= regs[i],
{
    lemma_pow2_pos(bits);
}

/// Observing `hash` can change no register but `hash mod 2^bits`.
pub proof fn lemma_add_selects_register(regs: Seq<u64>, bits: nat, hash: u64)
    requires
        regs.len() == register_count(bits),
    ensures
        forall|i: int|
            0 <= i < regs.len() && i != register_of(hash, bits) ==> #[trigger] lowered(regs, bits, hash)[i]
                == regs[i],
{
    lemma_pow2_pos(bits);
}

/// Observing the same `(seed, hash)` twice leaves the sketch as observing it once.
pub proof fn lemma_add_idempotent(regs: Seq<u64>, seeds: Seq<u64>, bits: nat, seed: u64, hash: u64)
    requires
        regs.len() == register_count(bits),
        seeds.len() == regs.len(),
    ensures
        lowered(lowered(regs, bits, hash), bits, hash) == lowered(regs, bits, hash),
        witnessed(
            witnessed(seeds, regs, bits, seed, hash),
            lowered(regs, bits, hash),
            bits,
            seed,
            hash,
        ) == witnessed(seeds, regs, bits, seed, hash),
{
    lemma_pow2_pos(bits);
}

/// Two observations commute: the registers after `a` then `b` equal those
/// after `b` then `a`, so concurrent point updates can be applied in any order.
pub proof fn lemma_add_commutes(regs: Seq<u64>, bits: nat, a: u64, b: u64)
    requires
        regs.len() == register_count(bits),
    ensures
        lowered(lowered(regs, bits, a), bits, b) == lowered(lowered(regs, bits, b), bits, a),
{
    lemma_pow2_pos(bits);
    let ab = lowered(lowered(regs, bits, a), bits, b);
    let ba = lowered(lowered(regs, bits, b), bits, a);
    assert(ab =~= ba);
}

/// Register `i` after a run of observations is the least of its starting
/// value and the observed hashes that select it.
pub proof fn lemma_lowered_all_is_min(regs: Seq<u64>, bits: nat, hashes: Seq<u64>, i: int)
    requires
        regs.len() == register_count(bits),
        0 <= i < regs.len(),
    ensures
        lowered_all(regs, bits, hashes).len() == regs.len(),
        lowered_all(regs, bits, hashes)[i] <= regs[i],
        forall|k: int|
            0 <= k < hashes.len() && register_of(#[trigger] hashes[k], bits) == i ==> lowered_all(
                regs,
                bits,
                hashes,
            )[i] <= hashes[k],
        lowered_all(regs, bits, hashes)[i] == regs[i] || exists|k: int|
            0 <= k < hashes.len() && register_of(#[trigger] hashes[k], bits) == i && hashes[k]
                == lowered_all(regs, bits, hashes)[i],
    decreases hashes.len(),
{
    lemma_pow2_pos(bits);
    if hashes.len() > 0 {
        let init = hashes.drop_last();
        lemma_lowered_all_is_min(regs, bits, init, i);
        let prev = lowered_all(regs, bits, init);
        let cur = lowered_all(regs, bits, hashes);
        let h = hashes.last();
        assert(cur == lowered(prev, bits, h));
        assert forall|k: int|
            0 <= k < hashes.len() && register_of(#[trigger] hashes[k], bits) == i implies cur[i]
            <= hashes[k] by {
            if k < hashes.len() - 1 {
                assert(hashes[k] == init[k]);
            }
        }
        if cur[i] != regs[i] {
            if cur[i] == prev[i] {
                let k = choose|k: int|
                    0 <= k < init.len() && register_of(#[trigger] init[k], bits) == i && init[k]
                        == prev[i];
                assert(hashes[k] == init[k]);
            } else {
                assert(hashes[hashes.len() - 1] == h);
            }
        }
    }
}

/// The registers, and so the estimate, do not depend on the order of the
/// observations: two runs of the same multiset of hashes give the same registers.
pub proof fn lemma_order_irrelevant(regs: Seq<u64>, bits: nat, first: Seq<u64>, second: Seq<u64>)
    requires
        regs.len() == register_count(bits),
        first.to_multiset() == second.to_multiset(),
    ensures
        lowered_all(regs, bits, first) == lowered_all(regs, bits, second),
        scaled_sum(lowered_all(regs, bits, first), bits) == scaled_sum(
            lowered_all(regs, bits, second),
            bits,
        ),
{
    broadcast use vstd::seq_lib::to_multiset_contains;

    let a = lowered_all(regs, bits, first);
    let b = lowered_all(regs, bits, second);
    lemma_pow2_pos(bits);
    lemma_lowered_all_is_min(regs, bits, first, 0);
    lemma_lowered_all_is_min(regs, bits, second, 0);
    assert forall|i: int| 0 <= i < regs.len() implies a[i] == b[i] by {
        lemma_lowered_all_is_min(regs, bits, first, i);
        lemma_lowered_all_is_min(regs, bits, second, i);
        if a[i] != regs[i] {
            let k = choose|k: int|
                0 <= k < first.len() && register_of(#[trigger] first[k], bits) == i && first[k]
                    == a[i];
            assert(first.to_multiset().count(first[k]) > 0);
            assert(second.contains(first[k]));
        }
        if b[i] != regs[i] {
            let k = choose|k: int|
                0 <= k < second.len() && register_of(#[trigger] second[k], bits) == i
                    && second[k] == b[i];
            assert(second.to_multiset().count(second[k]) > 0);
            assert(first.contains(second[k]));
        }
    }
    assert(a =~= b);
}

/// A sketch with every register empty has a zero sum, so its estimate is 0.
pub proof fn lemma_empty_sum_zero(bits: nat)
    ensures
        scaled_sum(empty_registers(bits), bits) == 0,
{
    lemma_empty_prefix_sum_zero(empty_registers(bits), bits, empty_registers(bits).len() as int);
    assert(empty_registers(bits).take(empty_registers(bits).len() as int) =~= empty_registers(bits));
}

proof fn lemma_empty_prefix_sum_zero(regs: Seq<u64>, bits: nat, n: int)
    requires
        0 <= n <= regs.len(),
        forall|i: int| 0 <= i < regs.len() ==> regs[i] == EMPTY_REGISTER,
    ensures
        scaled_sum(regs.take(n), bits) == 0,
    decreases n,
{
    if n > 0 {
        lemma_empty_prefix_sum_zero(regs, bits, n - 1);
        assert(regs.take(n).drop_last() =~= regs.take(n - 1));
    }
}

/// `Z * 2^64` for the registers `regs` of a sketch with `bits` selection bits,
/// where `Z` is the sum of `2^-rho` over the non-empty registers.
pub fn scaled_sum_of(regs: &[u64], bits: u8) -> (r: u128)
requires
    1 <= bits <= MAX_HLL_BITS,
    regs@.len() == register_count(bits as nat),
ensures
    r as nat == scaled_sum(regs@, bits as nat),
{
    proof {
        lemma_register_mask(0, bits as u64);
    }
    let n = regs.len();
    let mut acc: u128 = 0;
    let mut i: usize = 0;
    while i < n
        invariant
            1 <= bits <= MAX_HLL_BITS,
            n == regs@.len(),
            n <= 0x10_0000,
            i <= n,
            acc as nat == scaled_sum(regs@.take(i as int), bits as nat),
            acc <= i * 0x8000_0000_0000_0000,
        decreases n - i,
    {
        let h = regs[i];
        assert(regs@.take(i + 1).drop_last() =~= regs@.take(i as int));
        if h != EMPTY_REGISTER {
            let rho = HyperLogLog::register_rho(h, bits);
            let shift = (64 - rho) as u64;
            proof {
                vstd::bits::lemma_u64_pow2_no_overflow(shift as nat);
                lemma_u64_shl_is_mul(1u64, shift);
                vstd::arithmetic::power2::lemma2_to64_rest();
                if shift < 63 {
                    vstd::arithmetic::power2::lemma_pow2_strictly_increases(shift as nat, 63);
                }
            }
            let w = 1u64 << shift;
            assert(w <= 0x8000_0000_0000_0000u64);
            assert(acc + w <= (i + 1) * 0x8000_0000_0000_0000) by (nonlinear_arith)
                requires
                    acc <= i * 0x8000_0000_0000_0000,
                    w <= 0x8000_0000_0000_0000u64,
            ;
            acc = acc + w as u128;
        }
        assert(acc <= (i + 1) * 0x8000_0000_0000_0000) by (nonlinear_arith)
            requires
                acc <= i * 0x8000_0000_0000_0000 || acc <= (i + 1) * 0x8000_0000_0000_0000,
        ;
        i = i + 1;
    }
    assert(regs@.take(n as int) =~= regs@);
    acc
}

/// Min-hash HyperLogLog: `2^bits` registers, each the smallest hash observed
/// whose low `bits` bits equal its index, with the seed that produced it.
#[derive(Clone, Debug, PartialEq)]
pub struct HyperLogLog {
    bits: u8,
    seeds: Vec<u64>,
    hashes: Vec<u64>,
}

impl HyperLogLog {
    /// Between 1 and `MAX_HLL_BITS` bits, one register and one seed per index.
    pub closed spec fn wf(&self) -> bool {
        &&& 1 <= self.bits <= MAX_HLL_BITS
        &&& self.hashes@.len() == register_count(self.bits as nat)
        &&& self.seeds@.len() == self.hashes@.len()
    }

    /// Number of register-selection bits.
    pub closed spec fn spec_bits(&self) -> nat {
        self.bits as nat
    }

    /// A well-formed sketch has between 1 and `MAX_HLL_BITS` bits, `2^bits`
    /// registers and one seed per register.
    pub proof fn lemma_shape(&self)
        requires
            self.wf(),
        ensures
            1 <= self.spec_bits() <= MAX_HLL_BITS,
            self.registers().len() == register_count(self.spec_bits()),
            self.witnesses().len() == self.registers().len(),
    {
    }

    /// The register values, indexed by register.
    pub closed spec fn registers(&self) -> Seq<u64> {
        self.hashes@
    }

    /// The seed recorded with each register's minimum (0 where none was recorded).
    pub closed spec fn witnesses(&self) -> Seq<u64> {
        self.seeds@
    }

    /// Clamps `bits` into `[1, MAX_HLL_BITS]`.
    pub fn normalize_bits(bits: u8) -> (r: u8)
        ensures
            r as nat == clamp_bits(bits),
    {
        if bits < 1 {
            1
        } else if bits > MAX_HLL_BITS {
            MAX_HLL_BITS
        } else {
            bits
        }
    }

    /// A sketch with `2^clamp(bits)` empty registers and zero seeds.
    pub fn new(bits: u8) -> (r: Self)
        ensures
            r.wf(),
            r.spec_bits() == clamp_bits(bits),
            r.registers() == empty_registers(clamp_bits(bits)),
            r.witnesses() == Seq::new(register_count(clamp_bits(bits)), |i: int| 0u64),
    {
        let bits = Self::normalize_bits(bits);
        proof {
            lemma_register_mask(0, bits as u64);
        }
        let m = (1u64 << bits) as usize;
        let seeds = vec![0u64; m];
        let hashes = vec![EMPTY_REGISTER; m];
        let r = HyperLogLog { bits, seeds, hashes };
        assert(r.registers() =~= empty_registers(clamp_bits(bits)));
        assert(r.witnesses() =~= Seq::new(register_count(clamp_bits(bits)), |i: int| 0u64));
        r
    }

    /// Observes `hash`, produced by `seed`. Returns whether it lowered the
    /// minimum of its register; only then are the register and its seed replaced.
    pub fn add(&mut self, seed: u64, hash: u64) -> (r: bool)
        requires
            old(self).wf(),
        ensures
            final(self).wf(),
            r == improves(old(self).registers(), old(self).spec_bits(), hash),
            final(self).spec_bits() == old(self).spec_bits(),
            final(self).registers() == lowered(old(self).registers(), old(self).spec_bits(), hash),
            final(self).witnesses() == witnessed(
                old(self).witnesses(),
                old(self).registers(),
                old(self).spec_bits(),
                seed,
                hash,
            ),
    {
        proof {
            lemma_register_mask(hash, self.bits as u64);
        }
        let mask = (1u64 << self.bits) - 1;
        let register = (hash & mask) as usize;
        if hash < self.hashes[register] {
            self.hashes.set(register, hash);
            self.seeds.set(register, seed);
            true
        } else {
            false
        }
    }

    /// Observes `hash` without a seed (its seed is recorded as 0).
    pub fn add_hash(&mut self, hash: u64) -> (r: bool)
        requires
            old(self).wf(),
        ensures
            final(self).wf(),
            r == improves(old(self).registers(), old(self).spec_bits(), hash),
            final(self).spec_bits() == old(self).spec_bits(),
            final(self).registers() == lowered(old(self).registers(), old(self).spec_bits(), hash),
            final(self).witnesses() == witnessed(
                old(self).witnesses(),
                old(self).registers(),
                old(self).spec_bits(),
                0,
                hash,
            ),
    {
        self.add(0, hash)
    }

    /// The `rho` of one register value, as the estimator uses it.
    pub fn register_rho(hash: u64, bits: u8) -> (r: u32)
        requires
            1 <= bits <= MAX_HLL_BITS,
        ensures
            r as nat == rho_of(hash, bits as nat),
            1 <= r <= 64,
    {
        let shifted = hash >> bits;
        let lz = shifted.leading_zeros();
        proof {
            axiom_u64_leading_zeros(shifted);
        }
        lz.saturating_sub(bits as u32) + 1
    }

    /// `Z * 2^64`, where `Z = sum of 2^-rho` over the non-empty registers;
    /// the estimate is `alpha_m * m^2 / Z`, or 0 where `Z` is 0.
    pub fn scaled_harmonic_sum(&self) -> (r: u128)
        requires
            self.wf(),
        ensures
            r as nat == scaled_sum(self.registers(), self.spec_bits()),
    {
        scaled_sum_of(self.hashes.as_slice(), self.bits)
    }

    /// A sketch of `2^clamp(bits)` registers restored from decimal texts:
    /// register `i` takes `values[i]` where that exists and parses as a `u64`,
    /// and stays empty otherwise; extra values are ignored and all seeds are 0.
    pub fn from_values(bits: u8, values: &Vec<String>) -> (r: Self)
        ensures
            r.wf(),
            r.spec_bits() == clamp_bits(bits),
            r.registers() == restored_registers(clamp_bits(bits), Some(string_views(values@))),
            r.witnesses() == Seq::new(register_count(clamp_bits(bits)), |i: int| 0u64),
    {
        let mut state = Self::new(bits);
        let ghost items = string_views(values@);
        let n = state.hashes.len();
        let mut index: usize = 0;
        while index < n && index < values.len()
            invariant
                state.wf(),
                state.spec_bits() == clamp_bits(bits),
                n == state.registers().len(),
                n == register_count(clamp_bits(bits)),
                state.witnesses() == Seq::new(register_count(clamp_bits(bits)), |i: int| 0u64),
                items == string_views(values@),
                index <= n,
                forall|i: int|
                    0 <= i < n ==> #[trigger] state.registers()[i] == (if i < index {
                        restored_registers(clamp_bits(bits), Some(items))[i]
                    } else {
                        EMPTY_REGISTER
                    }),
            decreases n - index,
        {
            if let Some(parsed) = parse_u64(values[index].as_str()) {
                state.hashes.set(index, parsed);
            }
            index = index + 1;
        }
        assert(state.registers() =~= restored_registers(clamp_bits(bits), Some(items)));
        state
    }

    /// A sketch of `2^clamp(bits)` registers read from a JSON array of decimal
    /// strings. Text that is no such array gives an empty sketch; missing or
    /// malformed entries leave their registers empty. Seeds are all 0.
    pub fn from_json(bits: u8, json: &str) -> (r: Self)
        ensures
            r.wf(),
            r.spec_bits() == clamp_bits(bits),
            r.registers() == restored_registers(clamp_bits(bits), json_string_list(json@)),
            decodes_compact(clamp_bits(bits), json@, r.registers()),
            r.witnesses() == Seq::new(register_count(clamp_bits(bits)), |i: int| 0u64),
    {
        let parsed = read_string_list(json);
        let r = match parsed {
            Ok(values) => Self::from_values(bits, &values),
            Err(_) => {
                let fresh = Self::new(bits);
                assert(fresh.registers() =~= restored_registers(clamp_bits(bits), None));
                fresh
            },
        };
        r
    }

    /// The registers as a compact JSON array of decimal strings, so that no
    /// 64-bit value loses precision in a JSON reader. Seeds are not written.
    pub fn to_json(&self) -> (r: String)
        requires
            self.wf(),
        ensures
            r@ == list_text(registers_text(self.registers())),
    {
        let mut values: Vec<String> = Vec::new();
        let mut i: usize = 0;
        while i < self.hashes.len()
            invariant
                i <= self.registers().len(),
                values@.len() == i,
                string_views(values@) == registers_text(self.registers().take(i as int)),
            decreases self.registers().len() - i,
        {
            let text = decimal_string(self.hashes[i]);
            let ghost before = values@;
            values.push(text);
            assert forall|k: int| 0 <= k <= i implies #[trigger] string_views(values@)[k]
                == registers_text(self.registers().take(i + 1))[k] by {
                if k < i {
                    assert(values@[k] == before[k]);
                    assert(string_views(before)[k] == registers_text(self.registers().take(i as int))[k]);
                }
            }
            assert(string_views(values@) =~= registers_text(self.registers().take(i + 1)));
            i = i + 1;
        }
        assert(self.registers().take(i as int) =~= self.registers());
        assert forall|k: int| 0 <= k < values@.len() implies crate::decimal::all_digits(
            #[trigger] string_views(values@)[k],
        ) by {
            crate::decimal::lemma_decimal_text(self.registers()[k] as nat);
        }
        match write_string_list(&values) {
            Ok(text) => text,
            Err(_) => {
                proof {
                    reveal_strlit("[]");
                }
                String::from_str("[]")
            },
        }
    }

    /// Number of register-selection bits.
    pub fn bits(&self) -> (r: u8)
        ensures
            r as nat == self.spec_bits(),
    {
        self.bits
    }

    /// The register minimums; `EMPTY_REGISTER` marks a register never lowered.
    pub fn hashes(&self) -> (r: &[u64])
        ensures
            r@ == self.registers(),
    {
        self.hashes.as_slice()
    }

    /// The seed behind each register's minimum.
    pub fn seeds(&self) -> (r: &[u64])
        ensures
            r@ == self.witnesses(),
    {
        self.seeds.as_slice()
    }
}

} // verus!
