//! Sizing and pricing of a transaction's compute budget from a simulated
//! consumption figure, and the instructions that carry it.

use vstd::prelude::*;
use solana_compute_budget_interface::ComputeBudgetInstruction;
use crate::ix::{AccountRef, Ix, IxView, copy_ix, ix_views};

verus! {

/// The per-transaction compute-unit ceiling, requested while simulating so
/// that the simulation is never cut short.
pub const MAX_CU_LIMIT: u32 = 1_400_000;

/// The compute-budget program's address.
pub const COMPUTE_BUDGET_PROGRAM_ID: [u8; 32] = [
    3, 6, 70, 111, 229, 33, 23, 50, 255, 236, 173, 186, 114, 195, 155, 231,
    188, 140, 229, 187, 197, 247, 18, 107, 44, 67, 155, 58, 64, 0, 0, 0,
];

/// The `n` low bytes of `x`, least significant first.
pub open spec fn le_bytes(x: nat, n: nat) -> Seq<u8>
    decreases n,
{
    if n == 0 {
        Seq::empty()
    } else {
        seq![(x % 256) as u8] + le_bytes(x / 256, (n - 1) as nat)
    }
}

/// The instruction that sets the compute-unit limit.
pub open spec fn cu_limit_ix_view(units: u32) -> IxView {
    IxView {
        program_id: COMPUTE_BUDGET_PROGRAM_ID,
        accounts: Seq::empty(),
        data: seq![2u8] + le_bytes(units as nat, 4),
    }
}

/// The instruction that sets the compute-unit price.
pub open spec fn cu_price_ix_view(micro_lamports: u64) -> IxView {
    IxView {
        program_id: COMPUTE_BUDGET_PROGRAM_ID,
        accounts: Seq::empty(),
        data: seq![3u8] + le_bytes(micro_lamports as nat, 8),
    }
}

/// Relies on ComputeBudgetInstruction::set_compute_unit_limit: an
/// instruction for the compute-budget program, with no accounts, whose data
/// is the tag 2 and the limit's four little-endian bytes.
#[verifier::external_body]
fn cu_limit_ix(units: u32) -> (r: Ix)
    ensures
        r@ == cu_limit_ix_view(units),
{
    let ix = ComputeBudgetInstruction::set_compute_unit_limit(units);
    Ix {
        program_id: ix.program_id.to_bytes(),
        accounts: ix.accounts.iter().map(|m| AccountRef {
            pubkey: m.pubkey.to_bytes(),
            is_signer: m.is_signer,
            is_writable: m.is_writable,
        }).collect(),
        data: ix.data,
    }
}

/// Relies on ComputeBudgetInstruction::set_compute_unit_price: an
/// instruction for the compute-budget program, with no accounts, whose data
/// is the tag 3 and the price's eight little-endian bytes.
#[verifier::external_body]
fn cu_price_ix(micro_lamports: u64) -> (r: Ix)
    ensures
        r@ == cu_price_ix_view(micro_lamports),
{
    let ix = ComputeBudgetInstruction::set_compute_unit_price(micro_lamports);
    Ix {
        program_id: ix.program_id.to_bytes(),
        accounts: ix.accounts.iter().map(|m| AccountRef {
            pubkey: m.pubkey.to_bytes(),
            is_signer: m.is_signer,
            is_writable: m.is_writable,
        }).collect(),
        data: ix.data,
    }
}

/// The compute-unit limit for a measured consumption: one percent over it,
/// rounded up, plus 300 units of headroom.
pub open spec fn cu_limit_spec(consumed: int) -> int {
    (consumed * 101 + 99) / 100 + 300
}

/// The compute-unit price, in micro-lamports per unit, that spends at least
/// `fee` lamports over `limit` units: `fee * 1_000_000 / limit`, rounded up.
pub open spec fn cu_price_spec(fee: int, limit: int) -> int {
    (fee * 1_000_000 + limit - 1) / limit
}

/// A sized and priced compute budget.
#[derive(Clone, Copy, Debug, PartialEq, Eq, Structural)]
pub struct ComputeBudget {
    pub limit: u32,
    pub price: u64,
}

/// Why no compute budget could be formed.
#[derive(Clone, Copy, Debug, PartialEq, Eq, Structural)]
pub enum BudgetError {
    /// The limit does not fit in 32 bits.
    LimitOverflow,
    /// The price does not fit in 64 bits.
    PriceOverflow,
}

/// The compute-unit limit for a measured consumption, if it fits in 32 bits.
pub fn cu_limit_for(consumed: u64) -> (r: Option<u32>)
    ensures
        r matches Some(l) <==> cu_limit_spec(consumed as int) <= u32::MAX,
        r matches Some(l) ==> l == cu_limit_spec(consumed as int),
{
    let c = consumed as u128;
    assert(c * 101 <= 18446744073709551615u128 * 101) by (nonlinear_arith)
        requires c <= 18446744073709551615u128;
    let l = (c * 101 + 99) / 100 + 300;
    if l > u32::MAX as u128 {
        None
    } else {
        Some(l as u32)
    }
}

/// The compute-unit price for a fee budget spread over `limit` units, if it
/// fits in 64 bits.
pub fn cu_price_for(fee_cb: u64, limit: u32) -> (r: Option<u64>)
    requires
        limit > 0,
    ensures
        r matches Some(p) <==> cu_price_spec(fee_cb as int, limit as int) <= u64::MAX,
        r matches Some(p) ==> p == cu_price_spec(fee_cb as int, limit as int),
{
    let f = fee_cb as u128;
    assert(f * 1_000_000 <= 18446744073709551615u128 * 1_000_000) by (nonlinear_arith)
        requires f <= 18446744073709551615u128;
    let p = (f * 1_000_000 + (limit as u128) - 1) / (limit as u128);
    if p > u64::MAX as u128 {
        None
    } else {
        Some(p as u64)
    }
}

/// The compute budget for a transaction that consumed `consumed` units in
/// simulation and is to pay `fee_cb` lamports in priority fees.
pub fn compute_budget(consumed: u64, fee_cb: u64) -> (r: Result<ComputeBudget, BudgetError>)
    ensures
        r is Ok <==> cu_limit_spec(consumed as int) <= u32::MAX
            && cu_price_spec(fee_cb as int, cu_limit_spec(consumed as int)) <= u64::MAX,
        r == Err::<ComputeBudget, BudgetError>(BudgetError::LimitOverflow) <==> cu_limit_spec(consumed as int) > u32::MAX,
        r == Err::<ComputeBudget, BudgetError>(BudgetError::PriceOverflow) <==> cu_limit_spec(consumed as int) <= u32::MAX
            && cu_price_spec(fee_cb as int, cu_limit_spec(consumed as int)) > u64::MAX,
        r matches Ok(b) ==> b.limit == cu_limit_spec(consumed as int)
            && b.price == cu_price_spec(fee_cb as int, cu_limit_spec(consumed as int)),
{
    match cu_limit_for(consumed) {
        None => Err(BudgetError::LimitOverflow),
        Some(limit) => match cu_price_for(fee_cb, limit) {
            None => Err(BudgetError::PriceOverflow),
            Some(price) => Ok(ComputeBudget { limit, price }),
        },
    }
}

/// The instructions to simulate for a chunk: a limit at the ceiling, then
/// the chunk's own instructions.
pub fn to_est_cu_sim_ixs(ixs: &Vec<Ix>) -> (r: Vec<Ix>)
    ensures
        ix_views(r@) == seq![cu_limit_ix_view(MAX_CU_LIMIT)] + ix_views(ixs@),
{
    let mut r: Vec<Ix> = Vec::new();
    r.push(cu_limit_ix(MAX_CU_LIMIT));
    let mut i: usize = 0;
    while i < ixs.len()
        invariant
            0 <= i <= ixs@.len(),
            ix_views(r@) == seq![cu_limit_ix_view(MAX_CU_LIMIT)] + ix_views(ixs@.subrange(0, i as int)),
        decreases ixs@.len() - i,
    {
        let ghost before = r@;
        r.push(copy_ix(&ixs[i]));
        proof {
            assert(ix_views(r@) =~= ix_views(before).push(ixs@[i as int]@));
            assert(ix_views(ixs@.subrange(0, i + 1)) =~= ix_views(ixs@.subrange(0, i as int)).push(ixs@[i as int]@));
        }
        i = i + 1;
    }
    assert(ixs@.subrange(0, ixs@.len() as int) =~= ixs@);
    r
}

/// Puts the price instruction, then the limit instruction, in front of the
/// chunk's instructions.
pub fn with_compute_budget(ixs: Vec<Ix>, budget: ComputeBudget) -> (r: Vec<Ix>)
    ensures
        ix_views(r@) == seq![cu_price_ix_view(budget.price), cu_limit_ix_view(budget.limit)] + ix_views(ixs@),
{
    let mut r: Vec<Ix> = Vec::new();
    r.push(cu_price_ix(budget.price));
    r.push(cu_limit_ix(budget.limit));

    let mut rest = ixs;
    r.append(&mut rest);
    assert(ix_views(r@) =~= seq![cu_price_ix_view(budget.price), cu_limit_ix_view(budget.limit)] + ix_views(ixs@));
    r
}

} // verus!
