//! The fee record and the table-level predicates used throughout the library.

use vstd::prelude::*;

verus! {

/// One fee record: a 32-byte mint identifier with input and output fee
/// rates in billionths (1% is 10_000_000).
#[derive(Clone, Copy, Debug, Eq, Hash)]
pub struct SlabCsvEntry {
    pub mint: [u8; 32],
    pub inp: i32,
    pub out: i32,
}

impl PartialEq for SlabCsvEntry {
    fn eq(&self, o: &SlabCsvEntry) -> (r: bool) {
        key_eq(&self.mint, &o.mint) && self.inp == o.inp && self.out == o.out
    }
}

impl vstd::std_specs::cmp::PartialEqSpecImpl for SlabCsvEntry {
    open spec fn obeys_eq_spec() -> bool {
        true
    }

    open spec fn eq_spec(&self, o: &SlabCsvEntry) -> bool {
        *self == *o
    }
}

/// Whether some entry of `s` has mint `m`.
pub open spec fn has_mint(s: Seq<SlabCsvEntry>, m: [u8; 32]) -> bool {
    exists|k: int| 0 <= k < s.len() && #[trigger] s[k].mint == m
}

/// No two entries of `s` share a mint.
pub open spec fn unique_mints(s: Seq<SlabCsvEntry>) -> bool {
    forall|i: int, j: int|
        0 <= i < s.len() && 0 <= j < s.len() && i != j ==> #[trigger] s[i].mint != #[trigger] s[j].mint
}

/// Tests two 32-byte keys for equality.
pub fn key_eq(a: &[u8; 32], b: &[u8; 32]) -> (r: bool)
    ensures
        r == (*a == *b),
{
    let mut i: usize = 0;
    while i < 32
        invariant
            0 <= i <= 32,
            forall|k: int| 0 <= k < i ==> a@[k] == b@[k],
        decreases 32 - i,
    {
        if a[i] != b[i] {
            return false;
        }
        i = i + 1;
    }
    assert(*a =~= *b);
    true
}

} // verus!
