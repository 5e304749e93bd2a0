//! The pre-flight check that no combination of an input rate and an output
//! rate on the table gives a negative fee.

use vstd::prelude::*;
use crate::entry::SlabCsvEntry;

verus! {

/// The smallest input rate of a non-empty table.
pub open spec fn min_inp(s: Seq<SlabCsvEntry>) -> int
    decreases s.len(),
{
    if s.len() <= 1 {
        if s.len() == 0 { 0 } else { s[0].inp as int }
    } else {
        let m = min_inp(s.drop_last());
        if (s.last().inp as int) < m { s.last().inp as int } else { m }
    }
}

/// The smallest output rate of a non-empty table.
pub open spec fn min_out(s: Seq<SlabCsvEntry>) -> int
    decreases s.len(),
{
    if s.len() <= 1 {
        if s.len() == 0 { 0 } else { s[0].out as int }
    } else {
        let m = min_out(s.drop_last());
        if (s.last().out as int) < m { s.last().out as int } else { m }
    }
}

/// `k` is the first position of `s` whose input rate is the table's minimum.
pub open spec fn first_min_inp_at(s: Seq<SlabCsvEntry>, k: int) -> bool {
    &&& 0 <= k < s.len()
    &&& s[k].inp == min_inp(s)
    &&& forall|j: int| 0 <= j < k ==> #[trigger] s[j].inp > min_inp(s)
}

/// `k` is the first position of `s` whose output rate is the table's minimum.
pub open spec fn first_min_out_at(s: Seq<SlabCsvEntry>, k: int) -> bool {
    &&& 0 <= k < s.len()
    &&& s[k].out == min_out(s)
    &&& forall|j: int| 0 <= j < k ==> #[trigger] s[j].out > min_out(s)
}

/// The table is unsafe: it is non-empty and its smallest input rate plus its
/// smallest output rate, each taken over the whole table, is negative.
pub open spec fn has_negative_fee(s: Seq<SlabCsvEntry>) -> bool {
    s.len() > 0 && min_inp(s) + min_out(s) < 0
}

/// The worst pair of rates that makes a table unsafe, with the mints of the
/// first entries that carry them.
#[derive(Clone, Copy, Debug, PartialEq, Eq)]
pub struct NegativeFeeError {
    pub inp_mint: [u8; 32],
    pub inp: i32,
    pub out_mint: [u8; 32],
    pub out: i32,
}

/// Checks that the smallest input rate plus the smallest output rate of the
/// table is not negative. An empty table passes.
pub fn verify_no_negative_fee(entries: &Vec<SlabCsvEntry>) -> (r: Result<(), NegativeFeeError>)
    ensures
        r is Ok <==> !has_negative_fee(entries@),
        r matches Err(e) ==> {
            &&& e.inp == min_inp(entries@)
            &&& e.out == min_out(entries@)
            &&& exists|k: int| first_min_inp_at(entries@, k) && entries@[k].mint == e.inp_mint
            &&& exists|k: int| first_min_out_at(entries@, k) && entries@[k].mint == e.out_mint
        },
{
    if entries.len() == 0 {
        return Ok(());
    }
    let mut bi: usize = 0;
    let mut bo: usize = 0;
    let mut i: usize = 1;
    while i < entries.len()
        invariant
            1 <= i <= entries@.len(),
            bi < i,
            bo < i,
            first_min_inp_at(entries@.subrange(0, i as int), bi as int),
            first_min_out_at(entries@.subrange(0, i as int), bo as int),
            forall|j: int| 0 <= j < i ==> #[trigger] entries@[j].inp >= entries@[bi as int].inp,
            forall|j: int| 0 <= j < i ==> #[trigger] entries@[j].out >= entries@[bo as int].out,
        decreases entries@.len() - i,
    {
        let ghost p = entries@.subrange(0, i as int);
        let ghost q = entries@.subrange(0, i + 1);
        assert(q.drop_last() =~= p);
        assert(q.last() == entries@[i as int]);
        assert(p[bi as int] == entries@[bi as int] && p[bo as int] == entries@[bo as int]);
        if entries[i].inp < entries[bi].inp {
            bi = i;
        }
        if entries[i].out < entries[bo].out {
            bo = i;
        }
        proof {
            assert forall|j: int| 0 <= j < bi implies #[trigger] q[j].inp > min_inp(q) by {
                if j < i {
                    assert(q[j] == p[j]);
                }
            }
            assert forall|j: int| 0 <= j < bo implies #[trigger] q[j].out > min_out(q) by {
                if j < i {
                    assert(q[j] == p[j]);
                }
            }
        }
        i = i + 1;
    }
    assert(entries@.subrange(0, entries@.len() as int) =~= entries@);
    let inp = entries[bi].inp;
    let out = entries[bo].out;
    if (inp as i64) + (out as i64) < 0 {
        Err(NegativeFeeError { inp_mint: entries[bi].mint, inp, out_mint: entries[bo].mint, out })
    } else {
        Ok(())
    }
}

} // verus!
