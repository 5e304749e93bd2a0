//! The send-mode state machine that carries each chunk from budgeting to
//! its resolution. The caller performs each command and reports the
//! outcome as an event; the machine decides what happens next.

use vstd::prelude::*;
use crate::budget::{
    BudgetError, MAX_CU_LIMIT, compute_budget, cu_limit_ix_view, cu_limit_spec, cu_price_ix_view,
    cu_price_spec, to_est_cu_sim_ixs, with_compute_budget,
};
use crate::ix::{Ix, copy_ix, ix_views};

verus! {

/// How each finished transaction is resolved.
#[derive(Clone, Copy, Debug, PartialEq, Eq, Structural, Hash)]
pub enum TxSendMode {
    /// Submit it and wait for confirmation.
    SendActual,
    /// Simulate it and report the result.
    SimOnly,
    /// Print its serialized form in base64.
    Dump64,
    /// Print its serialized form in base58.
    Dump58,
}

impl Default for TxSendMode {
    fn default() -> (r: TxSendMode)
        ensures
            r == TxSendMode::SendActual,
    {
        TxSendMode::SendActual
    }
}

impl TxSendMode {
    /// The modes that only print the transaction, with no network work on
    /// its compute budget.
    pub open spec fn is_dump_spec(self) -> bool {
        self is Dump64 || self is Dump58
    }

    /// Whether this mode only prints the transaction.
    pub fn is_dump(&self) -> (r: bool)
        ensures
            r == self.is_dump_spec(),
    {
        match self {
            TxSendMode::Dump64 | TxSendMode::Dump58 => true,
            _ => false,
        }
    }
}

/// The standard, padded base64 text of `b`.
pub uninterp spec fn base64_of(b: Seq<u8>) -> Seq<char>;

/// The base58 text of `b`, in the Bitcoin alphabet.
pub uninterp spec fn base58_of(b: Seq<u8>) -> Seq<char>;

/// Relies on data_encoding::BASE64.encode: the standard, padded base64
/// text of the bytes.
#[verifier::external_body]
fn encode_base64(b: &Vec<u8>) -> (r: String)
    ensures
        r@ == base64_of(b@),
{
    data_encoding::BASE64.encode(b)
}

/// Relies on bs58::encode(..).into_string(): the base58 text of the bytes.
#[verifier::external_body]
fn encode_base58(b: &Vec<u8>) -> (r: String)
    ensures
        r@ == base58_of(b@),
{
    bs58::encode(b).into_string()
}

/// Why a run stopped early.
#[derive(Clone, Copy, Debug, PartialEq, Eq, Structural)]
pub enum SyncError {
    /// The simulation call failed or reported no consumption.
    Simulation,
    /// The consumption gave no representable compute budget.
    Budget(BudgetError),
    /// Submission or confirmation failed.
    Send,
    /// An event came that the current phase does not expect.
    UnexpectedEvent,
}

/// Where a run stands.
#[derive(Clone, Copy, Debug, PartialEq, Eq, Structural)]
pub enum Phase {
    /// Nothing has started yet.
    Ready,
    /// The current chunk is being simulated to size its budget.
    Estimating,
    /// The current chunk's final instructions are being signed.
    Signing,
    /// The current chunk's signed transaction is being resolved.
    Dispatching,
    /// Every chunk has been resolved.
    Finished,
    /// The run stopped on an error.
    Failed,
}

/// What the caller reports back.
pub enum Event {
    /// Begin the run.
    Proceed,
    /// The simulation returned, with the compute units it consumed if it
    /// reported them.
    Simulated(Option<u64>),
    /// The simulation call failed.
    SimulationFailed,
    /// The transaction was signed; its serialized bytes.
    Signed(Vec<u8>),
    /// The transaction was resolved as the mode asks.
    Dispatched,
    /// Submission or confirmation failed.
    DispatchFailed,
}

/// What the caller is to do next.
#[derive(Debug)]
pub enum Command {
    /// Simulate these instructions, unsigned, and report the consumption.
    Simulate(Vec<Ix>),
    /// Fetch a fresh block hash and sign these instructions.
    Sign(Vec<Ix>),
    /// Submit the signed transaction and wait for confirmation.
    SendAndConfirm,
    /// Simulate the signed transaction and report the full result.
    SimulateSigned,
    /// Print this line to standard output.
    Print(String),
    /// Nothing is left to do.
    Done,
    /// Stop: the run failed.
    Abort(SyncError),
}

/// How a signed transaction is resolved in each mode.
pub open spec fn dispatch_spec(mode: TxSendMode, tx: Seq<u8>, c: Command) -> bool {
    match mode {
        TxSendMode::SendActual => c is SendAndConfirm,
        TxSendMode::SimOnly => c is SimulateSigned,
        TxSendMode::Dump64 => c matches Command::Print(s) && s@ == base64_of(tx),
        TxSendMode::Dump58 => c matches Command::Print(s) && s@ == base58_of(tx),
    }
}

/// The command that resolves a signed transaction, serialized as `tx`.
pub fn handle_tx(mode: TxSendMode, tx: &Vec<u8>) -> (c: Command)
    ensures
        dispatch_spec(mode, tx@, c),
{
    match mode {
        TxSendMode::SendActual => Command::SendAndConfirm,
        TxSendMode::SimOnly => Command::SimulateSigned,
        TxSendMode::Dump64 => Command::Print(encode_base64(tx)),
        TxSendMode::Dump58 => Command::Print(encode_base58(tx)),
    }
}

/// Adds the compute budget to a chunk, given what simulating it reported
/// (`None`: no consumption figure). In a dump mode the chunk passes through
/// unchanged.
pub fn with_auto_cb(ixs: Vec<Ix>, tsm: TxSendMode, fee_cb: u64, consumed: Option<u64>) -> (r: Result<Vec<Ix>, SyncError>)
    ensures
        tsm.is_dump_spec() ==> (r matches Ok(v) && ix_views(v@) == ix_views(ixs@)),
        !tsm.is_dump_spec() ==> match consumed {
            None => r == Err::<Vec<Ix>, SyncError>(SyncError::Simulation),
            Some(units) => if cu_limit_spec(units as int) > u32::MAX {
                r == Err::<Vec<Ix>, SyncError>(SyncError::Budget(BudgetError::LimitOverflow))
            } else if cu_price_spec(fee_cb as int, cu_limit_spec(units as int)) > u64::MAX {
                r == Err::<Vec<Ix>, SyncError>(SyncError::Budget(BudgetError::PriceOverflow))
            } else {
                r matches Ok(v) && ix_views(v@) == seq![
                    cu_price_ix_view(cu_price_spec(fee_cb as int, cu_limit_spec(units as int)) as u64),
                    cu_limit_ix_view(cu_limit_spec(units as int) as u32),
                ] + ix_views(ixs@)
            },
        },
{
    if tsm.is_dump() {
        return Ok(ixs);
    }
    match consumed {
        None => Err(SyncError::Simulation),
        Some(units) => match compute_budget(units, fee_cb) {
            Ok(b) => Ok(with_compute_budget(ixs, b)),
            Err(e) => Err(SyncError::Budget(e)),
        },
    }
}

/// A copy of an instruction list.
pub fn copy_ixs(ixs: &Vec<Ix>) -> (r: Vec<Ix>)
    ensures
        ix_views(r@) == ix_views(ixs@),
{
    let mut r: Vec<Ix> = Vec::new();
    let mut i: usize = 0;
    while i < ixs.len()
        invariant
            0 <= i <= ixs@.len(),
            ix_views(r@) == ix_views(ixs@.subrange(0, i as int)),
        decreases ixs@.len() - i,
    {
        let ghost before = r@;
        r.push(copy_ix(&ixs[i]));
        proof {
            assert(ix_views(r@) =~= ix_views(before).push(ixs@[i as int]@));
            assert(ix_views(ixs@.subrange(0, i + 1)) =~= ix_views(ixs@.subrange(0, i as int)).push(ixs@[i as int]@));
        }
        i = i + 1;
    }
    assert(ixs@.subrange(0, ixs@.len() as int) =~= ixs@);
    r
}

/// A run over the chunks of one reconciliation, in order. `pos` counts the
/// chunks already resolved.
pub struct SyncSession {
    pub mode: TxSendMode,
    pub fee_cb: u64,
    pub chunks: Vec<Vec<Ix>>,
    pub pos: usize,
    pub phase: Phase,
}

/// What opening chunk `pos` does: with none left the run finishes; in a
/// dump mode the chunk goes to signing as it is; otherwise it is simulated
/// under the ceiling limit.
pub open spec fn opens_chunk(mode: TxSendMode, chunks: Seq<Vec<Ix>>, pos: int, phase: Phase, c: Command) -> bool {
    if pos >= chunks.len() {
        phase == Phase::Finished && c is Done
    } else if mode.is_dump_spec() {
        phase == Phase::Signing && (c matches Command::Sign(v) && ix_views(v@) == ix_views(chunks[pos]@))
    } else {
        phase == Phase::Estimating && (c matches Command::Simulate(v)
            && ix_views(v@) == seq![cu_limit_ix_view(MAX_CU_LIMIT)] + ix_views(chunks[pos]@))
    }
}

impl SyncSession {
    /// The position is within the chunks, and strictly so while a chunk is
    /// in progress; only a mode that sends or simulates estimates budgets.
    pub open spec fn wf(&self) -> bool {
        &&& self.pos <= self.chunks@.len()
        &&& (self.phase is Estimating || self.phase is Signing || self.phase is Dispatching)
            ==> self.pos < self.chunks@.len()
        &&& self.phase is Finished ==> self.pos == self.chunks@.len()
        &&& self.phase is Estimating ==> !self.mode.is_dump_spec()
    }

    /// A run that has not started.
    pub fn new(mode: TxSendMode, fee_cb: u64, chunks: Vec<Vec<Ix>>) -> (r: SyncSession)
        ensures
            r.wf(),
            r.mode == mode,
            r.fee_cb == fee_cb,
            r.chunks == chunks,
            r.pos == 0,
            r.phase == Phase::Ready,
    {
        SyncSession { mode, fee_cb, chunks, pos: 0, phase: Phase::Ready }
    }

    fn open_chunk(&mut self) -> (c: Command)
        requires
            old(self).pos <= old(self).chunks@.len(),
        ensures
            final(self).wf(),
            final(self).mode == old(self).mode,
            final(self).fee_cb == old(self).fee_cb,
            final(self).chunks == old(self).chunks,
            final(self).pos == old(self).pos,
            opens_chunk(final(self).mode, final(self).chunks@, final(self).pos as int, final(self).phase, c),
    {
        if self.pos == self.chunks.len() {
            self.phase = Phase::Finished;
            Command::Done
        } else if self.mode.is_dump() {
            self.phase = Phase::Signing;
            Command::Sign(copy_ixs(&self.chunks[self.pos]))
        } else {
            self.phase = Phase::Estimating;
            Command::Simulate(to_est_cu_sim_ixs(&self.chunks[self.pos]))
        }
    }

    fn fail(&mut self, e: SyncError) -> (c: Command)
        requires
            old(self).wf(),
        ensures
            final(self).wf(),
            final(self).mode == old(self).mode,
            final(self).fee_cb == old(self).fee_cb,
            final(self).chunks == old(self).chunks,
            final(self).pos == old(self).pos,
            final(self).phase == Phase::Failed,
            c == Command::Abort(e),
    {
        self.phase = Phase::Failed;
        Command::Abort(e)
    }

    /// Takes the outcome of the last command and returns the next one.
    pub fn step(&mut self, ev: Event) -> (c: Command)
        requires
            old(self).wf(),
        ensures
            final(self).wf(),
            final(self).mode == old(self).mode,
            final(self).fee_cb == old(self).fee_cb,
            final(self).chunks == old(self).chunks,
            ({
                let o = *old(self);
                let f = *final(self);
                match (o.phase, ev) {
                    (Phase::Ready, Event::Proceed) =>
                        f.pos == o.pos && opens_chunk(o.mode, o.chunks@, o.pos as int, f.phase, c),
                    (Phase::Estimating, Event::Simulated(Some(units))) =>
                        f.pos == o.pos && if cu_limit_spec(units as int) > u32::MAX {
                            f.phase == Phase::Failed && c == Command::Abort(SyncError::Budget(BudgetError::LimitOverflow))
                        } else if cu_price_spec(o.fee_cb as int, cu_limit_spec(units as int)) > u64::MAX {
                            f.phase == Phase::Failed && c == Command::Abort(SyncError::Budget(BudgetError::PriceOverflow))
                        } else {
                            f.phase == Phase::Signing && (c matches Command::Sign(v) && ix_views(v@) == seq![
                                cu_price_ix_view(cu_price_spec(o.fee_cb as int, cu_limit_spec(units as int)) as u64),
                                cu_limit_ix_view(cu_limit_spec(units as int) as u32),
                            ] + ix_views(o.chunks@[o.pos as int]@))
                        },
                    (Phase::Estimating, Event::Simulated(None)) | (Phase::Estimating, Event::SimulationFailed) =>
                        f.pos == o.pos && f.phase == Phase::Failed && c == Command::Abort(SyncError::Simulation),
                    (Phase::Signing, Event::Signed(tx)) =>
                        f.pos == o.pos && f.phase == Phase::Dispatching && dispatch_spec(o.mode, tx@, c),
                    (Phase::Dispatching, Event::Dispatched) =>
                        f.pos == o.pos + 1 && opens_chunk(o.mode, o.chunks@, o.pos + 1, f.phase, c),
                    (Phase::Dispatching, Event::DispatchFailed) =>
                        f.pos == o.pos && f.phase == Phase::Failed && c == Command::Abort(SyncError::Send),
                    (Phase::Finished, _) => f == o && c is Done,
                    (Phase::Failed, _) => f == o && c is Done,
                    _ => f.pos == o.pos && f.phase == Phase::Failed && c == Command::Abort(SyncError::UnexpectedEvent),
                }
            }),
    {
        match self.phase {
            Phase::Finished | Phase::Failed => Command::Done,
            Phase::Ready => match ev {
                Event::Proceed => self.open_chunk(),
                _ => self.fail(SyncError::UnexpectedEvent),
            },
            Phase::Estimating => match ev {
                Event::Simulated(consumed) => {
                    let ixs = copy_ixs(&self.chunks[self.pos]);
                    match with_auto_cb(ixs, self.mode, self.fee_cb, consumed) {
                        Ok(v) => {
                            self.phase = Phase::Signing;
                            Command::Sign(v)
                        },
                        Err(e) => self.fail(e),
                    }
                },
                Event::SimulationFailed => self.fail(SyncError::Simulation),
                _ => self.fail(SyncError::UnexpectedEvent),
            },
            Phase::Signing => match ev {
                Event::Signed(tx) => {
                    self.phase = Phase::Dispatching;
                    handle_tx(self.mode, &tx)
                },
                _ => self.fail(SyncError::UnexpectedEvent),
            },
            Phase::Dispatching => match ev {
                Event::Dispatched => {
                    let n = self.chunks.len();
                    assert(self.pos < n);
                    self.pos = self.pos + 1;
                    self.open_chunk()
                },
                Event::DispatchFailed => self.fail(SyncError::Send),
                _ => self.fail(SyncError::UnexpectedEvent),
            },
        }
    }
}

} // verus!
