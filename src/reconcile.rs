//! Reconciliation: the actions that bring the current table in line with the
//! desired one.

use vstd::prelude::*;
use crate::entry::{SlabCsvEntry, has_mint, key_eq};

verus! {

/// One change to the on-chain table.
#[derive(Clone, Copy, Debug, Eq, Hash)]
pub enum SyncAction {
    /// Set (insert or overwrite) the entry with this mint.
    Upsert(SlabCsvEntry),
    /// Remove the entry with this mint.
    Remove([u8; 32]),
}

impl PartialEq for SyncAction {
    fn eq(&self, o: &SyncAction) -> (r: bool) {
        match (self, o) {
            (SyncAction::Upsert(a), SyncAction::Upsert(b)) => a == b,
            (SyncAction::Remove(a), SyncAction::Remove(b)) => key_eq(a, b),
            _ => false,
        }
    }
}

impl vstd::std_specs::cmp::PartialEqSpecImpl for SyncAction {
    open spec fn obeys_eq_spec() -> bool {
        true
    }

    open spec fn eq_spec(&self, o: &SyncAction) -> bool {
        *self == *o
    }
}

/// `k` is the first position of `c` whose mint is `m`.
pub open spec fn first_match(c: Seq<SlabCsvEntry>, m: [u8; 32], k: int) -> bool {
    &&& 0 <= k < c.len()
    &&& c[k].mint == m
    &&& forall|j: int| 0 <= j < k ==> #[trigger] c[j].mint != m
}

/// The entry that a lookup of `e`'s mint in `c` finds is `e` itself.
pub open spec fn is_current(c: Seq<SlabCsvEntry>, e: SlabCsvEntry) -> bool {
    exists|k: int| first_match(c, e.mint, k) && c[k] == e
}

/// The upserts for desired table `d` against current table `c`: every entry
/// of `d`, in order, that is not already current in `c`.
pub open spec fn upsert_actions(d: Seq<SlabCsvEntry>, c: Seq<SlabCsvEntry>) -> Seq<SyncAction>
    decreases d.len(),
{
    if d.len() == 0 {
        seq![]
    } else {
        let r = upsert_actions(d.drop_last(), c);
        if is_current(c, d.last()) {
            r
        } else {
            r.push(SyncAction::Upsert(d.last()))
        }
    }
}

/// The removals for desired table `d` against current table `c`: the mint of
/// every entry of `c`, in `c`'s order, that `d` does not mention.
pub open spec fn remove_actions(d: Seq<SlabCsvEntry>, c: Seq<SlabCsvEntry>) -> Seq<SyncAction>
    decreases c.len(),
{
    if c.len() == 0 {
        seq![]
    } else {
        let r = remove_actions(d, c.drop_last());
        if has_mint(d, c.last().mint) {
            r
        } else {
            r.push(SyncAction::Remove(c.last().mint))
        }
    }
}

/// The whole action list: upserts first, then, only when removal is allowed,
/// removals.
pub open spec fn reconcile_spec(d: Seq<SlabCsvEntry>, c: Seq<SlabCsvEntry>, allow_remove: bool) -> Seq<SyncAction> {
    upsert_actions(d, c) + if allow_remove {
        remove_actions(d, c)
    } else {
        Seq::<SyncAction>::empty()
    }
}

/// The position of the first entry of `c` with mint `m`, if any.
pub fn find_by_mint(c: &Vec<SlabCsvEntry>, m: &[u8; 32]) -> (r: Option<usize>)
    ensures
        match r {
            Some(k) => first_match(c@, *m, k as int),
            None => !has_mint(c@, *m),
        },
{
    let mut i: usize = 0;
    while i < c.len()
        invariant
            0 <= i <= c@.len(),
            forall|j: int| 0 <= j < i ==> #[trigger] c@[j].mint != *m,
        decreases c@.len() - i,
    {
        if key_eq(&c[i].mint, m) {
            return Some(i);
        }
        i = i + 1;
    }
    None
}

/// Whether some entry of `d` has mint `m`.
pub fn contains_mint(d: &Vec<SlabCsvEntry>, m: &[u8; 32]) -> (r: bool)
    ensures
        r == has_mint(d@, *m),
{
    match find_by_mint(d, m) {
        Some(_) => true,
        None => false,
    }
}

/// Upserts for every desired entry that is not already current on-chain, in
/// the desired table's order.
pub fn upserts(desired: &Vec<SlabCsvEntry>, current: &Vec<SlabCsvEntry>) -> (r: Vec<SyncAction>)
    ensures
        r@ == upsert_actions(desired@, current@),
{
    let mut r: Vec<SyncAction> = Vec::new();
    let mut i: usize = 0;
    while i < desired.len()
        invariant
            0 <= i <= desired@.len(),
            r@ == upsert_actions(desired@.subrange(0, i as int), current@),
        decreases desired@.len() - i,
    {
        let e = desired[i];
        assert(desired@.subrange(0, i + 1).drop_last() =~= desired@.subrange(0, i as int));
        let found = find_by_mint(current, &e.mint);
        let same = match found {
            Some(k) => current[k] == e,
            None => false,
        };
        if !same {
            r.push(SyncAction::Upsert(e));
        }
        i = i + 1;
    }
    assert(desired@.subrange(0, desired@.len() as int) =~= desired@);
    r
}

/// Removals for every on-chain entry whose mint the desired table lacks, in
/// the current table's order.
pub fn removals(desired: &Vec<SlabCsvEntry>, current: &Vec<SlabCsvEntry>) -> (r: Vec<SyncAction>)
    ensures
        r@ == remove_actions(desired@, current@),
{
    let mut r: Vec<SyncAction> = Vec::new();
    let mut i: usize = 0;
    while i < current.len()
        invariant
            0 <= i <= current@.len(),
            r@ == remove_actions(desired@, current@.subrange(0, i as int)),
        decreases current@.len() - i,
    {
        let m = current[i].mint;
        assert(current@.subrange(0, i + 1).drop_last() =~= current@.subrange(0, i as int));
        if !contains_mint(desired, &m) {
            r.push(SyncAction::Remove(m));
        }
        i = i + 1;
    }
    assert(current@.subrange(0, current@.len() as int) =~= current@);
    r
}

/// The full, ordered action list: upserts, then removals when
/// `allow_remove` is set.
pub fn reconcile(desired: &Vec<SlabCsvEntry>, current: &Vec<SlabCsvEntry>, allow_remove: bool) -> (r: Vec<SyncAction>)
    ensures
        r@ == reconcile_spec(desired@, current@, allow_remove),
{
    let mut r = upserts(desired, current);
    if allow_remove {
        let mut rm = removals(desired, current);
        r.append(&mut rm);
    } else {
        assert(r@ + Seq::<SyncAction>::empty() =~= r@);
    }
    r
}

} // verus!
