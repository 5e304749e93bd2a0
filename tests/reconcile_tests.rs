use flatslab_cli::cli::SyncPricesArgs;
use flatslab_cli::entry::SlabCsvEntry;
use flatslab_cli::reconcile::{SyncAction, contains_mint, find_by_mint, reconcile, removals, upserts};
use flatslab_cli::validate::verify_no_negative_fee;

fn key(b: u8) -> [u8; 32] {
    [b; 32]
}

fn entry(b: u8, inp: i32, out: i32) -> SlabCsvEntry {
    SlabCsvEntry { mint: key(b), inp, out }
}

fn fixture() -> Vec<SlabCsvEntry> {
    vec![
        entry(1, -11_235_342, -20_000_000),
        entry(2, 3_123_456, -4_000_000),
        entry(3, -5_000_000, 6_000_000),
    ]
}

/// Applies actions to a table the way the program does: upsert overwrites
/// in place or appends, remove drops the entry.
fn apply(current: &[SlabCsvEntry], actions: &[SyncAction]) -> Vec<SlabCsvEntry> {
    let mut t: Vec<SlabCsvEntry> = current.to_vec();
    for a in actions {
        match a {
            SyncAction::Upsert(e) => match t.iter().position(|c| c.mint == e.mint) {
                Some(i) => t[i] = *e,
                None => t.push(*e),
            },
            SyncAction::Remove(m) => t.retain(|c| c.mint != *m),
        }
    }
    t
}

#[test]
fn validation_fails_on_negative_worst_pair() {
    let e = verify_no_negative_fee(&fixture()).unwrap_err();
    assert_eq!(e.inp, -11_235_342);
    assert_eq!(e.out, -20_000_000);
    assert_eq!(e.inp_mint, key(1));
    assert_eq!(e.out_mint, key(1));
}

#[test]
fn validation_minima_are_taken_per_column() {
    let mut t = fixture();
    t[1].out = 0;
    let e = verify_no_negative_fee(&t).unwrap_err();
    assert_eq!(e.inp, -11_235_342);
    assert_eq!(e.out, -20_000_000);
    assert_eq!(e.inp as i64 + e.out as i64, -31_235_342);
}

#[test]
fn validation_pairs_minima_from_different_rows() {
    // Each row sums to a positive fee, but the column minima do not.
    let t = vec![entry(1, -5, 10), entry(2, 10, -6)];
    let e = verify_no_negative_fee(&t).unwrap_err();
    assert_eq!((e.inp, e.out), (-5, -6));
    assert_eq!((e.inp_mint, e.out_mint), (key(1), key(2)));
}

#[test]
fn validation_passes_empty_and_safe_tables() {
    assert!(verify_no_negative_fee(&vec![]).is_ok());
    assert!(verify_no_negative_fee(&vec![entry(1, -5, 5), entry(2, 7, 6)]).is_ok());
}

#[test]
fn validation_reports_first_minimum() {
    let t = vec![entry(1, 0, -3), entry(2, -4, 9), entry(3, -4, -3)];
    let e = verify_no_negative_fee(&t).unwrap_err();
    assert_eq!((e.inp_mint, e.out_mint), (key(2), key(1)));
}

#[test]
fn identical_entries_are_not_upserted() {
    let d = vec![entry(1, 10, 20), entry(2, 30, 40), entry(3, 1, 1)];
    let c = vec![entry(2, 30, 40), entry(1, 10, 21)];
    assert_eq!(
        upserts(&d, &c),
        vec![SyncAction::Upsert(entry(1, 10, 20)), SyncAction::Upsert(entry(3, 1, 1))]
    );
}

#[test]
fn no_removals_without_flag() {
    let d = vec![entry(1, 10, 20)];
    let c = vec![entry(2, 30, 40), entry(3, 1, 1)];
    let r = reconcile(&d, &c, false);
    assert_eq!(r, vec![SyncAction::Upsert(entry(1, 10, 20))]);
    assert!(r.iter().all(|a| matches!(a, SyncAction::Upsert(_))));
}

#[test]
fn removals_are_exactly_the_missing_mints() {
    let d = vec![entry(2, 0, 0), entry(4, 5, 5)];
    let c = vec![entry(1, 0, 0), entry(2, 0, 0), entry(3, 0, 0)];
    assert_eq!(removals(&d, &c), vec![SyncAction::Remove(key(1)), SyncAction::Remove(key(3))]);
    assert_eq!(
        reconcile(&d, &c, true),
        vec![
            SyncAction::Upsert(entry(4, 5, 5)),
            SyncAction::Remove(key(1)),
            SyncAction::Remove(key(3)),
        ]
    );
}

#[test]
fn empty_desired_removes_everything() {
    let c = vec![entry(1, 0, 0), entry(2, 0, 0)];
    assert_eq!(
        reconcile(&vec![], &c, true),
        vec![SyncAction::Remove(key(1)), SyncAction::Remove(key(2))]
    );
}

#[test]
fn empty_current_upserts_everything() {
    let d = fixture();
    let r = reconcile(&d, &vec![], true);
    let expected: Vec<SyncAction> = d.iter().map(|e| SyncAction::Upsert(*e)).collect();
    assert_eq!(r, expected);
}

#[test]
fn reconciling_after_applying_is_empty() {
    let d = vec![entry(1, 1, 2), entry(5, 7, 7), entry(3, -1, 4)];
    let c = vec![entry(3, -1, 4), entry(2, 9, 9), entry(1, 0, 0)];
    for allow_remove in [false, true] {
        let acts = reconcile(&d, &c, allow_remove);
        assert!(!acts.is_empty());
        let c2 = apply(&c, &acts);
        assert!(reconcile(&d, &c2, allow_remove).is_empty());
    }
}

#[test]
fn plan_checks_then_batches() {
    let args = SyncPricesArgs { remove: true, skip_fee_check: false, admin: None, csv: "slab.csv".to_string() };
    assert!(args.plan(&fixture(), &vec![]).is_err());
    let args = SyncPricesArgs { skip_fee_check: true, ..args };
    let current = vec![entry(9, 0, 0)];
    let chunks = args.plan(&fixture(), &current).unwrap();
    assert_eq!(chunks.len(), 2);
    assert_eq!(chunks[0].len(), 3);
    assert_eq!(chunks[1], vec![SyncAction::Remove(key(9))]);
}

#[test]
fn lookup_finds_first_match() {
    let c = vec![entry(1, 0, 0), entry(2, 1, 1), entry(2, 5, 5)];
    assert_eq!(find_by_mint(&c, &key(2)), Some(1));
    assert_eq!(find_by_mint(&c, &key(3)), None);
    assert!(contains_mint(&c, &key(1)));
    assert!(!contains_mint(&vec![], &key(1)));
}
