use flatslab_cli::batch::{MAX_REMOVE_LST_IX_PER_TX, MAX_SET_LST_FEE_IX_PER_TX, batch_actions};
use flatslab_cli::budget::{
    BudgetError, COMPUTE_BUDGET_PROGRAM_ID, ComputeBudget, MAX_CU_LIMIT, compute_budget,
    cu_limit_for, cu_price_for, to_est_cu_sim_ixs, with_compute_budget,
};
use flatslab_cli::dispatch::{Command, Event, Phase, SyncError, SyncSession, TxSendMode, handle_tx, with_auto_cb};
use flatslab_cli::entry::SlabCsvEntry;
use flatslab_cli::ix::{AccountRef, Ix, keys_signer_writable_to_metas};
use flatslab_cli::reconcile::SyncAction;

fn upsert(b: u8) -> SyncAction {
    SyncAction::Upsert(SlabCsvEntry { mint: [b; 32], inp: b as i32, out: 0 })
}

fn sample_ix(tag: u8) -> Ix {
    Ix {
        program_id: [tag; 32],
        accounts: vec![AccountRef { pubkey: [7; 32], is_signer: true, is_writable: false }],
        data: vec![tag, tag],
    }
}

#[test]
fn forty_upserts_make_three_chunks() {
    let acts: Vec<SyncAction> = (0..40u8).map(upsert).collect();
    let chunks = batch_actions(&acts, 17, 18);
    let sizes: Vec<usize> = chunks.iter().map(|c| c.len()).collect();
    assert_eq!(sizes, vec![17, 17, 6]);
    let flat: Vec<SyncAction> = chunks.concat();
    assert_eq!(flat, acts);
}

#[test]
fn chunks_never_mix_kinds() {
    let mut acts: Vec<SyncAction> = (0..20u8).map(upsert).collect();
    acts.extend((0..20u8).map(|b| SyncAction::Remove([b; 32])));
    let chunks = batch_actions(&acts, MAX_SET_LST_FEE_IX_PER_TX, MAX_REMOVE_LST_IX_PER_TX);
    let sizes: Vec<usize> = chunks.iter().map(|c| c.len()).collect();
    assert_eq!(sizes, vec![17, 3, 18, 2]);
    assert!(batch_actions(&vec![], 17, 18).is_empty());
}

#[test]
fn budget_for_hundred_thousand_units() {
    assert_eq!(cu_limit_for(100_000), Some(101_300));
    assert_eq!(cu_price_for(1, 101_300), Some(10));
    assert_eq!(compute_budget(100_000, 1), Ok(ComputeBudget { limit: 101_300, price: 10 }));
}

#[test]
fn budget_rounds_up() {
    assert_eq!(cu_limit_for(0), Some(300));
    assert_eq!(cu_limit_for(1), Some(302));
    assert_eq!(cu_limit_for(100), Some(401));
    assert_eq!(cu_price_for(3, 300), Some(10_000));
    assert_eq!(cu_price_for(1, 300), Some(3_334));
    assert_eq!(cu_price_for(0, 300), Some(0));
}

#[test]
fn budget_overflows_are_reported() {
    assert_eq!(cu_limit_for(u64::MAX), None);
    assert_eq!(compute_budget(u64::MAX, 1), Err(BudgetError::LimitOverflow));
    assert_eq!(compute_budget(0, u64::MAX), Err(BudgetError::PriceOverflow));
}

#[test]
fn program_id_is_the_compute_budget_program() {
    let decoded = bs58::decode("ComputeBudget111111111111111111111111111111").into_vec().unwrap();
    assert_eq!(decoded.as_slice(), &COMPUTE_BUDGET_PROGRAM_ID[..]);
}

#[test]
fn simulation_prepends_ceiling_limit() {
    let sim = to_est_cu_sim_ixs(&vec![sample_ix(9)]);
    assert_eq!(sim.len(), 2);
    assert_eq!(sim[0].program_id, COMPUTE_BUDGET_PROGRAM_ID);
    assert!(sim[0].accounts.is_empty());
    let mut data = vec![2u8];
    data.extend_from_slice(&MAX_CU_LIMIT.to_le_bytes());
    assert_eq!(sim[0].data, data);
    assert_eq!(sim[0].data, vec![2, 0xC0, 0x5C, 0x15, 0x00]);
    assert_eq!(sim[1].data, vec![9, 9]);
    assert_eq!(sim[1].accounts, sample_ix(9).accounts);
}

#[test]
fn budget_instructions_go_first_price_then_limit() {
    let r = with_compute_budget(vec![sample_ix(1), sample_ix(2)], ComputeBudget { limit: 101_300, price: 10 });
    assert_eq!(r.len(), 4);
    assert_eq!(r[0].data, vec![3, 10, 0, 0, 0, 0, 0, 0, 0]);
    assert_eq!(r[1].data, vec![2, 0xB4, 0x8B, 0x01, 0x00]);
    assert_eq!(r[0].program_id, COMPUTE_BUDGET_PROGRAM_ID);
    assert_eq!(r[1].program_id, COMPUTE_BUDGET_PROGRAM_ID);
    assert_eq!(r[2].data, vec![1, 1]);
    assert_eq!(r[3].data, vec![2, 2]);
}

#[test]
fn metas_zip_to_shortest() {
    let keys = vec![[1u8; 32], [2u8; 32], [3u8; 32]];
    let metas = keys_signer_writable_to_metas(&keys, &vec![true, false], &vec![false, true, true]);
    assert_eq!(
        metas,
        vec![
            AccountRef { pubkey: [1; 32], is_signer: true, is_writable: false },
            AccountRef { pubkey: [2; 32], is_signer: false, is_writable: true },
        ]
    );
}

#[test]
fn dump_modes_encode_the_transaction() {
    match handle_tx(TxSendMode::Dump64, &b"Hello world".to_vec()) {
        Command::Print(s) => assert_eq!(s, "SGVsbG8gd29ybGQ="),
        c => panic!("{c:?}"),
    }
    let bytes = vec![0x04, 0x30, 0x5e, 0x2b, 0x24, 0x73, 0xf0, 0x58];
    match handle_tx(TxSendMode::Dump58, &bytes) {
        Command::Print(s) => assert_eq!(s, "he11owor1d"),
        c => panic!("{c:?}"),
    }
    assert!(matches!(handle_tx(TxSendMode::SendActual, &bytes), Command::SendAndConfirm));
    assert!(matches!(handle_tx(TxSendMode::SimOnly, &bytes), Command::SimulateSigned));
}

#[test]
fn default_mode_sends() {
    assert_eq!(TxSendMode::default(), TxSendMode::SendActual);
}

#[test]
fn session_sends_each_chunk_in_order() {
    let chunks = vec![vec![sample_ix(1)], vec![sample_ix(2), sample_ix(3)]];
    let mut s = SyncSession::new(TxSendMode::SendActual, 1, chunks);
    match s.step(Event::Proceed) {
        Command::Simulate(ixs) => {
            assert_eq!(ixs.len(), 2);
            assert_eq!(ixs[0].data, vec![2, 0xC0, 0x5C, 0x15, 0x00]);
        },
        c => panic!("{c:?}"),
    }
    match s.step(Event::Simulated(Some(100_000))) {
        Command::Sign(ixs) => {
            assert_eq!(ixs.len(), 3);
            assert_eq!(ixs[0].data, vec![3, 10, 0, 0, 0, 0, 0, 0, 0]);
            assert_eq!(ixs[2].data, vec![1, 1]);
        },
        c => panic!("{c:?}"),
    }
    assert!(matches!(s.step(Event::Signed(vec![0])), Command::SendAndConfirm));
    assert!(matches!(s.step(Event::Dispatched), Command::Simulate(_)));
    assert_eq!(s.pos, 1);
    assert!(matches!(s.step(Event::Simulated(Some(5))), Command::Sign(_)));
    assert!(matches!(s.step(Event::Signed(vec![0])), Command::SendAndConfirm));
    assert!(matches!(s.step(Event::Dispatched), Command::Done));
    assert_eq!(s.phase, Phase::Finished);
    assert_eq!(s.pos, 2);
}

#[test]
fn session_dump_skips_budgeting() {
    let mut s = SyncSession::new(TxSendMode::Dump58, 1, vec![vec![sample_ix(4)]]);
    match s.step(Event::Proceed) {
        Command::Sign(ixs) => {
            assert_eq!(ixs.len(), 1);
            assert_eq!(ixs[0].data, vec![4, 4]);
        },
        c => panic!("{c:?}"),
    }
    match s.step(Event::Signed(vec![0x04, 0x30, 0x5e, 0x2b, 0x24, 0x73, 0xf0, 0x58])) {
        Command::Print(line) => assert_eq!(line, "he11owor1d"),
        c => panic!("{c:?}"),
    }
    assert!(matches!(s.step(Event::Dispatched), Command::Done));
}

#[test]
fn session_stops_on_failures() {
    let chunks = vec![vec![sample_ix(1)], vec![sample_ix(2)]];
    let mut s = SyncSession::new(TxSendMode::SimOnly, 1, chunks);
    assert!(matches!(s.step(Event::Proceed), Command::Simulate(_)));
    assert!(matches!(s.step(Event::Simulated(None)), Command::Abort(SyncError::Simulation)));
    assert_eq!(s.phase, Phase::Failed);
    assert_eq!(s.pos, 0);
    assert!(matches!(s.step(Event::Proceed), Command::Done));

    let chunks = vec![vec![sample_ix(1)], vec![sample_ix(2)]];
    let mut s = SyncSession::new(TxSendMode::SendActual, 1, chunks);
    s.step(Event::Proceed);
    s.step(Event::Simulated(Some(10)));
    s.step(Event::Signed(vec![1]));
    assert!(matches!(s.step(Event::Dispatched), Command::Simulate(_)));
    assert!(matches!(s.step(Event::SimulationFailed), Command::Abort(SyncError::Simulation)));
    assert_eq!(s.pos, 1);

    let mut s = SyncSession::new(TxSendMode::SendActual, u64::MAX, vec![vec![sample_ix(1)]]);
    s.step(Event::Proceed);
    assert!(matches!(
        s.step(Event::Simulated(Some(0))),
        Command::Abort(SyncError::Budget(BudgetError::PriceOverflow))
    ));

    let mut s = SyncSession::new(TxSendMode::SendActual, 1, vec![vec![sample_ix(1)]]);
    s.step(Event::Proceed);
    s.step(Event::Simulated(Some(10)));
    s.step(Event::Signed(vec![1]));
    assert!(matches!(s.step(Event::DispatchFailed), Command::Abort(SyncError::Send)));
    assert_eq!(s.pos, 0);

    let mut s = SyncSession::new(TxSendMode::SendActual, 1, vec![]);
    assert!(matches!(s.step(Event::Dispatched), Command::Abort(SyncError::UnexpectedEvent)));
}

#[test]
fn session_with_no_chunks_finishes() {
    let mut s = SyncSession::new(TxSendMode::Dump64, 1, vec![]);
    assert!(matches!(s.step(Event::Proceed), Command::Done));
    assert_eq!(s.phase, Phase::Finished);
}

#[test]
fn auto_budget_per_mode() {
    for mode in [TxSendMode::Dump64, TxSendMode::Dump58] {
        assert!(mode.is_dump());
        let r = with_auto_cb(vec![sample_ix(5)], mode, 1, None).unwrap();
        assert_eq!(r.len(), 1);
        assert_eq!(r[0].data, vec![5, 5]);
    }
    assert!(!TxSendMode::SendActual.is_dump());
    assert!(matches!(with_auto_cb(vec![sample_ix(5)], TxSendMode::SimOnly, 1, None), Err(SyncError::Simulation)));
    let r = with_auto_cb(vec![sample_ix(5)], TxSendMode::SendActual, 1, Some(100_000)).unwrap();
    assert_eq!(r.len(), 3);
    assert_eq!(r[0].data, vec![3, 10, 0, 0, 0, 0, 0, 0, 0]);
    assert_eq!(r[1].data, vec![2, 0xB4, 0x8B, 0x01, 0x00]);
    assert_eq!(r[2].data, vec![5, 5]);
    assert!(matches!(
        with_auto_cb(vec![], TxSendMode::SendActual, 1, Some(u64::MAX)),
        Err(SyncError::Budget(BudgetError::LimitOverflow))
    ));
}
