//! What reconciliation guarantees: which actions it emits, and that applying
//! them leaves nothing further to do.

use vstd::prelude::*;
use crate::entry::{SlabCsvEntry, has_mint, unique_mints};
use crate::reconcile::{
    SyncAction, first_match, is_current, reconcile_spec, remove_actions, upsert_actions,
};

verus! {

/// The mints that occur in `s`.
pub open spec fn mint_set(s: Seq<SlabCsvEntry>) -> Set<[u8; 32]> {
    Set::new(|m: [u8; 32]| has_mint(s, m))
}

/// The mints that `acts` removes.
pub open spec fn removed_mints(acts: Seq<SyncAction>) -> Set<[u8; 32]> {
    Set::new(|m: [u8; 32]| exists|i: int| 0 <= i < acts.len() && acts[i] == SyncAction::Remove(m))
}

/// The mint that an action touches.
pub open spec fn action_mint(a: SyncAction) -> [u8; 32] {
    match a {
        SyncAction::Upsert(e) => e.mint,
        SyncAction::Remove(m) => m,
    }
}

/// The table that a sequence of entries holds, keyed by mint.
pub open spec fn table_of(s: Seq<SlabCsvEntry>) -> Map<[u8; 32], SlabCsvEntry>
    decreases s.len(),
{
    if s.len() == 0 {
        Map::empty()
    } else {
        table_of(s.drop_last()).insert(s.last().mint, s.last())
    }
}

/// The table after one action.
pub open spec fn apply_action(t: Map<[u8; 32], SlabCsvEntry>, a: SyncAction) -> Map<[u8; 32], SlabCsvEntry> {
    match a {
        SyncAction::Upsert(e) => t.insert(e.mint, e),
        SyncAction::Remove(m) => t.remove(m),
    }
}

/// The table after the actions, applied in order.
pub open spec fn apply_actions(t: Map<[u8; 32], SlabCsvEntry>, acts: Seq<SyncAction>) -> Map<[u8; 32], SlabCsvEntry>
    decreases acts.len(),
{
    if acts.len() == 0 {
        t
    } else {
        apply_action(apply_actions(t, acts.drop_last()), acts.last())
    }
}

proof fn lemma_upsert_facts(d: Seq<SlabCsvEntry>, c: Seq<SlabCsvEntry>)
    ensures
        forall|i: int| #![trigger upsert_actions(d, c)[i]] 0 <= i < upsert_actions(d, c).len() ==> {
            &&& upsert_actions(d, c)[i] is Upsert
            &&& exists|j: int| 0 <= j < d.len() && d[j] == upsert_actions(d, c)[i]->Upsert_0
            &&& !is_current(c, upsert_actions(d, c)[i]->Upsert_0)
        },
        forall|j: int| #![trigger d[j]] 0 <= j < d.len() && !is_current(c, d[j]) ==>
            exists|i: int| 0 <= i < upsert_actions(d, c).len() && upsert_actions(d, c)[i] == SyncAction::Upsert(d[j]),
    decreases d.len(),
{
    if d.len() > 0 {
        let p = d.drop_last();
        lemma_upsert_facts(p, c);
        let r = upsert_actions(p, c);
        assert forall|i: int| #![trigger upsert_actions(d, c)[i]] 0 <= i < upsert_actions(d, c).len() implies {
            &&& upsert_actions(d, c)[i] is Upsert
            &&& exists|j: int| 0 <= j < d.len() && d[j] == upsert_actions(d, c)[i]->Upsert_0
            &&& !is_current(c, upsert_actions(d, c)[i]->Upsert_0)
        } by {
            if i < r.len() {
                assert(upsert_actions(d, c)[i] == r[i]);
                let j = choose|j: int| 0 <= j < p.len() && p[j] == r[i]->Upsert_0;
                assert(d[j] == p[j]);
            } else {
                assert(d[d.len() - 1] == d.last());
            }
        }
        assert forall|j: int| #![trigger d[j]] 0 <= j < d.len() && !is_current(c, d[j]) implies
            exists|i: int| 0 <= i < upsert_actions(d, c).len() && upsert_actions(d, c)[i] == SyncAction::Upsert(d[j]) by {
            if j < p.len() {
                assert(p[j] == d[j]);
                let i = choose|i: int| 0 <= i < r.len() && r[i] == SyncAction::Upsert(p[j]);
                assert(upsert_actions(d, c)[i] == r[i]);
            } else {
                assert(upsert_actions(d, c)[r.len() as int] == SyncAction::Upsert(d[j]));
            }
        }
    }
}

proof fn lemma_remove_facts(d: Seq<SlabCsvEntry>, c: Seq<SlabCsvEntry>)
    ensures
        forall|i: int| #![trigger remove_actions(d, c)[i]] 0 <= i < remove_actions(d, c).len() ==> {
            &&& remove_actions(d, c)[i] is Remove
            &&& has_mint(c, remove_actions(d, c)[i]->Remove_0)
            &&& !has_mint(d, remove_actions(d, c)[i]->Remove_0)
        },
        forall|k: int| #![trigger c[k]] 0 <= k < c.len() && !has_mint(d, c[k].mint) ==>
            exists|i: int| 0 <= i < remove_actions(d, c).len() && remove_actions(d, c)[i] == SyncAction::Remove(c[k].mint),
    decreases c.len(),
{
    if c.len() > 0 {
        let p = c.drop_last();
        lemma_remove_facts(d, p);
        let r = remove_actions(d, p);
        assert forall|i: int| #![trigger remove_actions(d, c)[i]] 0 <= i < remove_actions(d, c).len() implies {
            &&& remove_actions(d, c)[i] is Remove
            &&& has_mint(c, remove_actions(d, c)[i]->Remove_0)
            &&& !has_mint(d, remove_actions(d, c)[i]->Remove_0)
        } by {
            if i < r.len() {
                assert(remove_actions(d, c)[i] == r[i]);
                let k = choose|k: int| 0 <= k < p.len() && #[trigger] p[k].mint == r[i]->Remove_0;
                assert(c[k] == p[k]);
            } else {
                assert(c[c.len() - 1] == c.last());
            }
        }
        assert forall|k: int| #![trigger c[k]] 0 <= k < c.len() && !has_mint(d, c[k].mint) implies
            exists|i: int| 0 <= i < remove_actions(d, c).len() && remove_actions(d, c)[i] == SyncAction::Remove(c[k].mint) by {
            if k < p.len() {
                assert(p[k] == c[k]);
                let i = choose|i: int| 0 <= i < r.len() && r[i] == SyncAction::Remove(p[k].mint);
                assert(remove_actions(d, c)[i] == r[i]);
            } else {
                assert(remove_actions(d, c)[r.len() as int] == SyncAction::Remove(c[k].mint));
            }
        }
    }
}

/// Without permission to remove, reconciliation emits upserts only.
pub proof fn lemma_no_remove_without_flag(d: Seq<SlabCsvEntry>, c: Seq<SlabCsvEntry>)
    ensures
        forall|i: int| 0 <= i < reconcile_spec(d, c, false).len() ==>
            !(#[trigger] reconcile_spec(d, c, false)[i] is Remove),
{
    lemma_upsert_facts(d, c);
    assert(reconcile_spec(d, c, false) =~= upsert_actions(d, c));
}

/// With permission to remove, reconciliation removes exactly the mints that
/// are on the current table and absent from the desired one.
pub proof fn lemma_removal_exact(d: Seq<SlabCsvEntry>, c: Seq<SlabCsvEntry>)
    ensures
        removed_mints(reconcile_spec(d, c, true)) == mint_set(c).difference(mint_set(d)),
{
    lemma_upsert_facts(d, c);
    lemma_remove_facts(d, c);
    let u = upsert_actions(d, c);
    let rm = remove_actions(d, c);
    let a = reconcile_spec(d, c, true);
    assert forall|m: [u8; 32]| removed_mints(a).contains(m) <==> mint_set(c).difference(mint_set(d)).contains(m) by {
        if removed_mints(a).contains(m) {
            let i = choose|i: int| 0 <= i < a.len() && a[i] == SyncAction::Remove(m);
            if i < u.len() {
                assert(a[i] == u[i]);
            } else {
                assert(a[i] == rm[i - u.len()]);
            }
        }
        if mint_set(c).difference(mint_set(d)).contains(m) {
            let k = choose|k: int| 0 <= k < c.len() && #[trigger] c[k].mint == m;
            let i = choose|i: int| 0 <= i < rm.len() && rm[i] == SyncAction::Remove(c[k].mint);
            assert(a[u.len() + i] == rm[i]);
        }
    }
    assert(removed_mints(a) =~= mint_set(c).difference(mint_set(d)));
}

/// An entry that the current table already holds (mints being unique there)
/// is never upserted.
pub proof fn lemma_no_redundant_upsert(
    d: Seq<SlabCsvEntry>,
    c: Seq<SlabCsvEntry>,
    allow_remove: bool,
    e: SlabCsvEntry,
)
    requires
        unique_mints(c),
        c.contains(e),
    ensures
        !reconcile_spec(d, c, allow_remove).contains(SyncAction::Upsert(e)),
{
    lemma_upsert_facts(d, c);
    lemma_remove_facts(d, c);
    let k = choose|k: int| 0 <= k < c.len() && c[k] == e;
    assert(first_match(c, e.mint, k));
    assert(is_current(c, e));
    let u = upsert_actions(d, c);
    let a = reconcile_spec(d, c, allow_remove);
    if a.contains(SyncAction::Upsert(e)) {
        let i = choose|i: int| 0 <= i < a.len() && a[i] == SyncAction::Upsert(e);
        if i < u.len() {
            assert(a[i] == u[i]);
        } else {
            assert(allow_remove);
            assert(a[i] == remove_actions(d, c)[i - u.len()]);
        }
    }
}

proof fn lemma_table_of(s: Seq<SlabCsvEntry>)
    requires
        unique_mints(s),
    ensures
        forall|m: [u8; 32]| #[trigger] table_of(s).contains_key(m) <==> has_mint(s, m),
        forall|k: int| 0 <= k < s.len() ==> table_of(s)[#[trigger] s[k].mint] == s[k],
    decreases s.len(),
{
    if s.len() > 0 {
        let p = s.drop_last();
        assert(unique_mints(p)) by {
            assert forall|i: int, j: int| 0 <= i < p.len() && 0 <= j < p.len() && i != j implies
                #[trigger] p[i].mint != #[trigger] p[j].mint by {
                assert(p[i] == s[i] && p[j] == s[j]);
            }
        }
        lemma_table_of(p);
        assert forall|m: [u8; 32]| #[trigger] table_of(s).contains_key(m) <==> has_mint(s, m) by {
            if has_mint(s, m) {
                let k = choose|k: int| 0 <= k < s.len() && #[trigger] s[k].mint == m;
                if k < p.len() {
                    assert(p[k].mint == m);
                }
            }
            if table_of(p).contains_key(m) {
                let k = choose|k: int| 0 <= k < p.len() && #[trigger] p[k].mint == m;
                assert(s[k].mint == m);
            }
        }
        assert forall|k: int| 0 <= k < s.len() implies table_of(s)[#[trigger] s[k].mint] == s[k] by {
            if k < p.len() {
                assert(p[k] == s[k]);
                assert(s[k].mint != s[s.len() - 1].mint);
            }
        }
    }
}

proof fn lemma_apply_untouched(t: Map<[u8; 32], SlabCsvEntry>, acts: Seq<SyncAction>, m: [u8; 32])
    requires
        forall|i: int| 0 <= i < acts.len() ==> action_mint(#[trigger] acts[i]) != m,
    ensures
        apply_actions(t, acts).contains_key(m) == t.contains_key(m),
        t.contains_key(m) ==> apply_actions(t, acts)[m] == t[m],
    decreases acts.len(),
{
    if acts.len() > 0 {
        let p = acts.drop_last();
        assert forall|i: int| 0 <= i < p.len() implies action_mint(#[trigger] p[i]) != m by {
            assert(p[i] == acts[i]);
        }
        lemma_apply_untouched(t, p, m);
        assert(action_mint(acts[acts.len() - 1]) != m);
    }
}

proof fn lemma_apply_upserted(t: Map<[u8; 32], SlabCsvEntry>, acts: Seq<SyncAction>, e: SlabCsvEntry)
    requires
        forall|i: int| 0 <= i < acts.len() && action_mint(#[trigger] acts[i]) == e.mint ==> acts[i] == SyncAction::Upsert(e),
        acts.contains(SyncAction::Upsert(e)),
    ensures
        apply_actions(t, acts).contains_key(e.mint),
        apply_actions(t, acts)[e.mint] == e,
    decreases acts.len(),
{
    let p = acts.drop_last();
    let last = acts[acts.len() - 1];
    if action_mint(last) == e.mint {
        assert(last == SyncAction::Upsert(e));
    } else {
        let i = choose|i: int| 0 <= i < acts.len() && acts[i] == SyncAction::Upsert(e);
        assert(i < p.len());
        assert(p[i] == acts[i]);
        assert forall|j: int| 0 <= j < p.len() && action_mint(#[trigger] p[j]) == e.mint implies p[j] == SyncAction::Upsert(e) by {
            assert(p[j] == acts[j]);
        }
        lemma_apply_upserted(t, p, e);
    }
}

proof fn lemma_apply_removed(t: Map<[u8; 32], SlabCsvEntry>, acts: Seq<SyncAction>, m: [u8; 32])
    requires
        acts.contains(SyncAction::Remove(m)),
        forall|i: int| 0 <= i < acts.len() && action_mint(#[trigger] acts[i]) == m ==> acts[i] is Remove,
    ensures
        !apply_actions(t, acts).contains_key(m),
    decreases acts.len(),
{
    let p = acts.drop_last();
    let last = acts[acts.len() - 1];
    if action_mint(last) != m {
        let i = choose|i: int| 0 <= i < acts.len() && acts[i] == SyncAction::Remove(m);
        assert(i < p.len());
        assert(p[i] == acts[i]);
        assert forall|j: int| 0 <= j < p.len() && action_mint(#[trigger] p[j]) == m implies p[j] is Remove by {
            assert(p[j] == acts[j]);
        }
        lemma_apply_removed(t, p, m);
    }
}

proof fn lemma_apply_domain(t: Map<[u8; 32], SlabCsvEntry>, acts: Seq<SyncAction>, m: [u8; 32])
    requires
        apply_actions(t, acts).contains_key(m),
    ensures
        t.contains_key(m) || exists|i: int| 0 <= i < acts.len() && #[trigger] acts[i] is Upsert && action_mint(acts[i]) == m,
    decreases acts.len(),
{
    if acts.len() > 0 {
        let p = acts.drop_last();
        let last = acts[acts.len() - 1];
        if last is Upsert && action_mint(last) == m {
        } else {
            lemma_apply_domain(t, p, m);
            if !t.contains_key(m) {
                let i = choose|i: int| 0 <= i < p.len() && #[trigger] p[i] is Upsert && action_mint(p[i]) == m;
                assert(acts[i] == p[i]);
            }
        }
    }
}

proof fn lemma_no_upserts(d: Seq<SlabCsvEntry>, c: Seq<SlabCsvEntry>)
    requires
        forall|j: int| 0 <= j < d.len() ==> is_current(c, #[trigger] d[j]),
    ensures
        upsert_actions(d, c).len() == 0,
    decreases d.len(),
{
    if d.len() > 0 {
        let p = d.drop_last();
        assert forall|j: int| 0 <= j < p.len() implies is_current(c, #[trigger] p[j]) by {
            assert(p[j] == d[j]);
        }
        lemma_no_upserts(p, c);
        assert(is_current(c, d[d.len() - 1]));
    }
}

proof fn lemma_no_removes(d: Seq<SlabCsvEntry>, c: Seq<SlabCsvEntry>)
    requires
        forall|k: int| 0 <= k < c.len() ==> has_mint(d, #[trigger] c[k].mint),
    ensures
        remove_actions(d, c).len() == 0,
    decreases c.len(),
{
    if c.len() > 0 {
        let p = c.drop_last();
        assert forall|k: int| 0 <= k < p.len() implies has_mint(d, #[trigger] p[k].mint) by {
            assert(p[k] == c[k]);
        }
        lemma_no_removes(d, p);
        assert(has_mint(d, c[c.len() - 1].mint));
    }
}

proof fn lemma_action_kinds(d: Seq<SlabCsvEntry>, c: Seq<SlabCsvEntry>, allow_remove: bool)
    ensures
        forall|i: int| #![trigger reconcile_spec(d, c, allow_remove)[i]] 0 <= i < reconcile_spec(d, c, allow_remove).len() ==> {
            let a = reconcile_spec(d, c, allow_remove)[i];
            (a is Upsert && d.contains(a->Upsert_0) && !is_current(c, a->Upsert_0))
            || (a is Remove && allow_remove && has_mint(c, a->Remove_0) && !has_mint(d, a->Remove_0))
        },
{
    let a = reconcile_spec(d, c, allow_remove);
    let u = upsert_actions(d, c);
    let rm = remove_actions(d, c);
    lemma_upsert_facts(d, c);
    lemma_remove_facts(d, c);
    assert forall|i: int| #![trigger a[i]] 0 <= i < a.len() implies
        (a[i] is Upsert && d.contains(a[i]->Upsert_0) && !is_current(c, a[i]->Upsert_0))
        || (a[i] is Remove && allow_remove && has_mint(c, a[i]->Remove_0) && !has_mint(d, a[i]->Remove_0)) by {
        if i < u.len() {
            assert(a[i] == u[i]);
            let j = choose|j: int| 0 <= j < d.len() && d[j] == u[i]->Upsert_0;
        } else {
            assert(allow_remove);
            assert(a[i] == rm[i - u.len()]);
        }
    }
}

proof fn lemma_touching_desired(d: Seq<SlabCsvEntry>, c: Seq<SlabCsvEntry>, allow_remove: bool, j: int)
    requires
        unique_mints(d),
        0 <= j < d.len(),
    ensures
        forall|i: int| 0 <= i < reconcile_spec(d, c, allow_remove).len()
            && action_mint(#[trigger] reconcile_spec(d, c, allow_remove)[i]) == d[j].mint
            ==> reconcile_spec(d, c, allow_remove)[i] == SyncAction::Upsert(d[j]),
{
    let a = reconcile_spec(d, c, allow_remove);
    let e = d[j];
    lemma_action_kinds(d, c, allow_remove);
    assert forall|i: int| 0 <= i < a.len() && action_mint(#[trigger] a[i]) == e.mint implies a[i] == SyncAction::Upsert(e) by {
        if a[i] is Upsert {
            let x = a[i]->Upsert_0;
            let jx = choose|jx: int| 0 <= jx < d.len() && d[jx] == x;
            assert(jx == j);
        } else {
            assert(d[j].mint == e.mint);
        }
    }
}

proof fn lemma_desired_applied(d: Seq<SlabCsvEntry>, c: Seq<SlabCsvEntry>, allow_remove: bool, j: int)
    requires
        unique_mints(d),
        unique_mints(c),
        0 <= j < d.len(),
    ensures
        apply_actions(table_of(c), reconcile_spec(d, c, allow_remove)).contains_key(d[j].mint),
        apply_actions(table_of(c), reconcile_spec(d, c, allow_remove))[d[j].mint] == d[j],
{
    let a = reconcile_spec(d, c, allow_remove);
    let u = upsert_actions(d, c);
    let t = table_of(c);
    let e = d[j];
    lemma_touching_desired(d, c, allow_remove, j);
    if is_current(c, e) {
        lemma_action_kinds(d, c, allow_remove);
        lemma_table_of(c);
        let k = choose|k: int| first_match(c, e.mint, k) && c[k] == e;
        assert forall|i: int| 0 <= i < a.len() implies action_mint(#[trigger] a[i]) != e.mint by {
            if action_mint(a[i]) == e.mint {
                assert(a[i] == SyncAction::Upsert(e));
            }
        }
        lemma_apply_untouched(t, a, e.mint);
        assert(t.contains_key(e.mint) && t[c[k].mint] == c[k]);
    } else {
        lemma_upsert_facts(d, c);
        let i = choose|i: int| 0 <= i < u.len() && u[i] == SyncAction::Upsert(d[j]);
        assert(a[i] == u[i]);
        lemma_apply_upserted(t, a, e);
    }
}

proof fn lemma_desired_kept(
    d: Seq<SlabCsvEntry>,
    c: Seq<SlabCsvEntry>,
    c2: Seq<SlabCsvEntry>,
    allow_remove: bool,
    j: int,
)
    requires
        unique_mints(d),
        unique_mints(c),
        unique_mints(c2),
        table_of(c2) == apply_actions(table_of(c), reconcile_spec(d, c, allow_remove)),
        0 <= j < d.len(),
    ensures
        is_current(c2, d[j]),
{
    let e = d[j];
    lemma_desired_applied(d, c, allow_remove, j);
    lemma_table_of(c2);
    assert(table_of(c2).contains_key(e.mint));
    let k2 = choose|k2: int| 0 <= k2 < c2.len() && #[trigger] c2[k2].mint == e.mint;
    assert(table_of(c2)[c2[k2].mint] == c2[k2]);
    assert(first_match(c2, e.mint, k2));
}

proof fn lemma_only_desired_left(
    d: Seq<SlabCsvEntry>,
    c: Seq<SlabCsvEntry>,
    c2: Seq<SlabCsvEntry>,
    k: int,
)
    requires
        unique_mints(c),
        unique_mints(c2),
        table_of(c2) == apply_actions(table_of(c), reconcile_spec(d, c, true)),
        0 <= k < c2.len(),
    ensures
        has_mint(d, c2[k].mint),
{
    let a = reconcile_spec(d, c, true);
    let u = upsert_actions(d, c);
    let rm = remove_actions(d, c);
    let t = table_of(c);
    let m = c2[k].mint;
    lemma_action_kinds(d, c, true);
    lemma_remove_facts(d, c);
    lemma_table_of(c);
    lemma_table_of(c2);
    assert(table_of(c2).contains_key(m));
    lemma_apply_domain(t, a, m);
    if !has_mint(d, m) {
        if !t.contains_key(m) {
            let i = choose|i: int| 0 <= i < a.len() && #[trigger] a[i] is Upsert && action_mint(a[i]) == m;
            let j = choose|j: int| 0 <= j < d.len() && d[j] == a[i]->Upsert_0;
            assert(d[j].mint == m);
        } else {
            let kc = choose|kc: int| 0 <= kc < c.len() && #[trigger] c[kc].mint == m;
            let i = choose|i: int| 0 <= i < rm.len() && rm[i] == SyncAction::Remove(c[kc].mint);
            assert(a[u.len() + i] == rm[i]);
            assert forall|i2: int| 0 <= i2 < a.len() && action_mint(#[trigger] a[i2]) == m implies a[i2] is Remove by {
                if a[i2] is Upsert {
                    let j = choose|j: int| 0 <= j < d.len() && d[j] == a[i2]->Upsert_0;
                    assert(d[j].mint == m);
                }
            }
            lemma_apply_removed(t, a, m);
        }
    }
}

/// Reconciliation converges in one round: once the actions it emitted have
/// been applied to the current table, reconciling the same desired table
/// against the result emits nothing. Mints are unique in each table.
pub proof fn lemma_reconcile_idempotent(
    d: Seq<SlabCsvEntry>,
    c: Seq<SlabCsvEntry>,
    c2: Seq<SlabCsvEntry>,
    allow_remove: bool,
)
    requires
        unique_mints(d),
        unique_mints(c),
        unique_mints(c2),
        table_of(c2) == apply_actions(table_of(c), reconcile_spec(d, c, allow_remove)),
    ensures
        reconcile_spec(d, c2, allow_remove).len() == 0,
{
    assert forall|j: int| 0 <= j < d.len() implies is_current(c2, #[trigger] d[j]) by {
        lemma_desired_kept(d, c, c2, allow_remove, j);
    }
    lemma_no_upserts(d, c2);
    if allow_remove {
        assert forall|k: int| 0 <= k < c2.len() implies has_mint(d, #[trigger] c2[k].mint) by {
            lemma_only_desired_left(d, c, c2, k);
        }
        lemma_no_removes(d, c2);
    }
}

} // verus!
