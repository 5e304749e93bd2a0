//! Partitioning of an action list into transaction-sized chunks.

use vstd::prelude::*;
use crate::reconcile::SyncAction;

verus! {

/// How many fee-setting instructions fit in one transaction beside the
/// two compute-budget instructions and two signatures.
pub const MAX_SET_LST_FEE_IX_PER_TX: usize = 17;

/// How many removal instructions fit in one transaction beside the two
/// compute-budget instructions and two signatures.
pub const MAX_REMOVE_LST_IX_PER_TX: usize = 18;

/// Both actions are upserts, or both are removals.
pub open spec fn same_kind(a: SyncAction, b: SyncAction) -> bool {
    (a is Upsert) == (b is Upsert)
}

/// The chunk limit for the kind of `a`.
pub open spec fn limit_for(a: SyncAction, n_upsert: nat, n_remove: nat) -> nat {
    if a is Upsert { n_upsert } else { n_remove }
}

/// The chunks laid end to end.
pub open spec fn concat_all(cs: Seq<Seq<SyncAction>>) -> Seq<SyncAction>
    decreases cs.len(),
{
    if cs.len() == 0 {
        Seq::empty()
    } else {
        concat_all(cs.drop_last()) + cs.last()
    }
}

/// The contents of each chunk.
pub open spec fn chunk_views(cs: Seq<Vec<SyncAction>>) -> Seq<Seq<SyncAction>> {
    cs.map_values(|v: Vec<SyncAction>| v@)
}

/// A non-empty chunk of one kind, within its kind's limit.
pub open spec fn chunk_ok(ch: Seq<SyncAction>, n_upsert: nat, n_remove: nat) -> bool {
    &&& 0 < ch.len() <= limit_for(ch[0], n_upsert, n_remove)
    &&& forall|i: int| 0 <= i < ch.len() ==> same_kind(#[trigger] ch[i], ch[0])
}

/// A chunk is closed only when it is full or the next action is of the
/// other kind.
pub open spec fn closed_properly(ch: Seq<SyncAction>, next: SyncAction, n_upsert: nat, n_remove: nat) -> bool {
    ch.len() == limit_for(ch[0], n_upsert, n_remove) || !same_kind(next, ch[0])
}

/// `cs` is the greedy batching of `acts`: contiguous, order-preserving
/// chunks of one kind each, every chunk as long as its limit and the kind
/// boundary allow.
pub open spec fn is_batching(acts: Seq<SyncAction>, cs: Seq<Seq<SyncAction>>, n_upsert: nat, n_remove: nat) -> bool {
    &&& concat_all(cs) == acts
    &&& forall|k: int| 0 <= k < cs.len() ==> chunk_ok(#[trigger] cs[k], n_upsert, n_remove)
    &&& forall|k: int| 0 <= k < cs.len() - 1 ==> closed_properly(#[trigger] cs[k], cs[k + 1][0], n_upsert, n_remove)
}

fn is_upsert(a: &SyncAction) -> (r: bool)
    ensures
        r == (*a is Upsert),
{
    match a {
        SyncAction::Upsert(_) => true,
        SyncAction::Remove(_) => false,
    }
}

/// Splits `actions` into chunks of at most `n_upsert` upserts or
/// `n_remove` removals, never mixing the two kinds in one chunk.
pub fn batch_actions(actions: &Vec<SyncAction>, n_upsert: usize, n_remove: usize) -> (r: Vec<Vec<SyncAction>>)
    requires
        n_upsert > 0,
        n_remove > 0,
    ensures
        is_batching(actions@, chunk_views(r@), n_upsert as nat, n_remove as nat),
{
    let ghost nu = n_upsert as nat;
    let ghost nr = n_remove as nat;
    let mut res: Vec<Vec<SyncAction>> = Vec::new();
    let mut cur: Vec<SyncAction> = Vec::new();
    let mut i: usize = 0;
    while i < actions.len()
        invariant
            0 <= i <= actions@.len(),
            n_upsert > 0,
            n_remove > 0,
            nu == n_upsert,
            nr == n_remove,
            concat_all(chunk_views(res@)) + cur@ == actions@.subrange(0, i as int),
            i > 0 ==> chunk_ok(cur@, nu, nr),
            i == 0 ==> cur@.len() == 0 && res@.len() == 0,
            forall|k: int| 0 <= k < res@.len() ==> chunk_ok(#[trigger] chunk_views(res@)[k], nu, nr),
            forall|k: int| 0 <= k < res@.len() - 1 ==>
                closed_properly(#[trigger] chunk_views(res@)[k], chunk_views(res@)[k + 1][0], nu, nr),
            res@.len() > 0 ==> closed_properly(chunk_views(res@).last(), cur@[0], nu, nr),
        decreases actions@.len() - i,
    {
        let a = actions[i];
        let upsert = is_upsert(&a);
        if cur.len() > 0 {
            let limit = if is_upsert(&cur[0]) { n_upsert } else { n_remove };
            if is_upsert(&cur[0]) != upsert || cur.len() == limit {
                let ghost old_res = res@;
                let ghost old_cur = cur@;
                res.push(cur);
                cur = Vec::new();
                proof {
                    assert(chunk_views(res@) =~= chunk_views(old_res).push(old_cur));
                    assert(chunk_views(res@).drop_last() =~= chunk_views(old_res));
                }
            }
        }
        let ghost before = cur@;
        cur.push(a);
        proof {
            assert(actions@.subrange(0, i + 1) =~= actions@.subrange(0, i as int).push(a));
            assert(concat_all(chunk_views(res@)) + cur@ =~= (concat_all(chunk_views(res@)) + before).push(a));
            assert forall|j: int| 0 <= j < cur@.len() implies same_kind(#[trigger] cur@[j], cur@[0]) by {
                if j < before.len() {
                    assert(cur@[j] == before[j]);
                }
            }
        }
        i = i + 1;
    }
    if cur.len() > 0 {
        let ghost old_res = res@;
        let ghost old_cur = cur@;
        res.push(cur);
        proof {
            assert(chunk_views(res@) =~= chunk_views(old_res).push(old_cur));
            assert(chunk_views(res@).drop_last() =~= chunk_views(old_res));
        }
    }
    proof {
        assert(actions@.subrange(0, actions@.len() as int) =~= actions@);
        assert(concat_all(chunk_views(res@)) + Seq::<SyncAction>::empty() =~= concat_all(chunk_views(res@)));
    }
    res
}

} // verus!
