//! Choosing what to work on from the server's catalog: the order in which
//! repositories are tried, the module file to run, the register bits, and the
//! server's register values for priming the mirror.

use crate::bank::FunctionInfo;
use crate::decimal::{parse_u64, parsed_u64};
use crate::sketch::EMPTY_REGISTER;
use rand::seq::SliceRandom;
use vstd::prelude::*;

verus! {

/// Register bits used when the server advertises none.
pub const FALLBACK_HLL_BITS: u8 = 12;

/// A module file of a repository's latest upload, with its exported functions.
#[derive(Clone, Debug, PartialEq, Eq)]
pub struct CatalogFile {
    pub id: i64,
    pub functions: Vec<FunctionInfo>,
}

/// Relies on rand's `SliceRandom::shuffle` with the thread-local generator:
/// the elements are permuted by swaps, none added or lost.
#[verifier::external_body]
fn shuffle<T>(items: &mut Vec<T>)
    ensures
        final(items)@.to_multiset() == old(items)@.to_multiset(),
{
    items.shuffle(&mut rand::rng());
}

/// The repositories in a random order to try one after another; `None`
/// where there are none.
pub fn repository_order(repos: Vec<String>) -> (r: Option<Vec<String>>)
    ensures
        r is None <==> repos@.len() == 0,
        r is Some ==> r->Some_0@.to_multiset() == repos@.to_multiset(),
{
    if repos.len() == 0 {
        return None;
    }
    let mut order = repos;
    shuffle(&mut order);
    Some(order)
}

/// A file with at least one function, picked at random; `None` where no file
/// has a function.
pub fn pick_file(files: Vec<CatalogFile>) -> (r: Option<CatalogFile>)
    ensures
        r is None <==> forall|i: int| 0 <= i < files@.len() ==> (#[trigger] files@[i]).functions@.len() == 0,
        r is Some ==> files@.contains(r->Some_0) && r->Some_0.functions@.len() > 0,
{
    broadcast use vstd::seq_lib::to_multiset_contains;

    let mut callable: Vec<CatalogFile> = Vec::new();
    let mut files = files;
    let ghost all = files@;
    while files.len() > 0
        invariant
            all.len() >= files@.len(),
            files@ == all.take(files@.len() as int),
            forall|i: int| 0 <= i < callable@.len() ==> all.contains(#[trigger] callable@[i]) && callable@[i].functions@.len() > 0,
            forall|i: int|
                files@.len() <= i < all.len() && (#[trigger] all[i]).functions@.len() > 0 ==> callable@.contains(all[i]),
        decreases files.len(),
    {
        let f = files.pop().unwrap();
        assert(all[files@.len() as int] == f);
        if f.functions.len() > 0 {
            let ghost prev = callable@;
            callable.push(f);
            assert(callable@.last() == f);
            assert forall|x: CatalogFile| prev.contains(x) implies callable@.contains(x) by {
                let k = choose|k: int| 0 <= k < prev.len() && prev[k] == x;
                assert(callable@[k] == x);
            }
        }
        assert(files@ =~= all.take(files@.len() as int));
    }
    let ghost before = callable@;
    shuffle(&mut callable);
    if callable.len() == 0 {
        assert forall|i: int| 0 <= i < all.len() implies (#[trigger] all[i]).functions@.len() == 0 by {
            if all[i].functions@.len() > 0 {
                assert(before.contains(all[i]));
                assert(before.to_multiset().count(all[i]) > 0);
                assert(callable@.to_multiset().count(all[i]) == 0);
            }
        }
        None
    } else {
        let ghost first = callable@[0];
        assert(callable@.contains(first));
        assert(callable@.to_multiset().count(first) > 0);
        assert(before.contains(first));
        proof {
            let k = choose|k: int| 0 <= k < before.len() && before[k] == first;
            assert(all.contains(before[k]) && before[k].functions@.len() > 0);
        }
        let chosen = callable.remove(0);
        Some(chosen)
    }
}

/// The register value that a server entry stands for: its `u64` where it
/// parses, the empty marker where it does not.
pub open spec fn entry_value(text: Seq<char>) -> u64 {
    match parsed_u64(text) {
        Some(v) => v,
        None => EMPTY_REGISTER,
    }
}

/// The server's registers from their decimal texts, position for position;
/// an entry that does not parse reads as an empty register.
pub fn parse_hashes(values: &Vec<String>) -> (r: Vec<u64>)
    ensures
        r@.len() == values@.len(),
        forall|i: int| 0 <= i < values@.len() ==> #[trigger] r@[i] == entry_value(values@[i]@),
{
    let mut out: Vec<u64> = Vec::new();
    let mut i: usize = 0;
    while i < values.len()
        invariant
            i <= values@.len(),
            out@.len() == i,
            forall|k: int| 0 <= k < i ==> #[trigger] out@[k] == entry_value(values@[k]@),
        decreases values@.len() - i,
    {
        let v = match parse_u64(values[i].as_str()) {
            Some(v) => v,
            None => EMPTY_REGISTER,
        };
        out.push(v);
        i = i + 1;
    }
    out
}

/// Register bits of a run: those the server advertises for the file's first
/// function where it advertises a positive number, `requested` where it
/// advertises 0, and `FALLBACK_HLL_BITS` where it lists no function.
pub fn effective_bits(advertised: Option<u8>, requested: u8) -> (r: u8)
    ensures
        r == (match advertised {
            Some(b) => if b > 0 {
                b
            } else {
                requested
            },
            None => FALLBACK_HLL_BITS,
        }),
{
    let bits = match advertised {
        Some(b) => b,
        None => FALLBACK_HLL_BITS,
    };
    if bits > 0 {
        bits
    } else {
        requested
    }
}

} // verus!
