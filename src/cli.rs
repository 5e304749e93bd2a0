//! The subcommands' own settings, and the plan that a price sync carries out.

use vstd::prelude::*;
use crate::batch::{
    MAX_REMOVE_LST_IX_PER_TX, MAX_SET_LST_FEE_IX_PER_TX, batch_actions, chunk_views, is_batching,
};
use crate::entry::SlabCsvEntry;
use crate::reconcile::{SyncAction, reconcile, reconcile_spec};
use crate::validate::{NegativeFeeError, has_negative_fee, verify_no_negative_fee};

verus! {

/// Runs the initialize instruction.
#[derive(Clone, Copy, Debug, PartialEq, Eq, Structural, Default)]
pub struct InitArgs;

/// Prints the slab's current admin.
#[derive(Clone, Copy, Debug, PartialEq, Eq, Structural, Default)]
pub struct ViewAdminArgs;

/// Prints the current fee table.
#[derive(Clone, Copy, Debug, PartialEq, Eq, Structural, Default)]
pub struct ViewPricesArgs;

/// Brings the on-chain fee table in line with a local table.
#[derive(Debug)]
pub struct SyncPricesArgs {
    /// Remove on-chain entries that the local table lacks.
    pub remove: bool,
    /// Skip the negative-fee check.
    pub skip_fee_check: bool,
    /// Where the admin signer comes from, if not the payer.
    pub admin: Option<String>,
    /// Path of the local table.
    pub csv: String,
}

impl SyncPricesArgs {
    /// Checks the desired table (unless told not to), reconciles it against
    /// the current one and cuts the actions into transaction-sized chunks.
    pub fn plan(&self, desired: &Vec<SlabCsvEntry>, current: &Vec<SlabCsvEntry>) -> (r: Result<Vec<Vec<SyncAction>>, NegativeFeeError>)
        ensures
            r is Err <==> !self.skip_fee_check && has_negative_fee(desired@),
            r matches Ok(cs) ==> is_batching(
                reconcile_spec(desired@, current@, self.remove),
                chunk_views(cs@),
                MAX_SET_LST_FEE_IX_PER_TX as nat,
                MAX_REMOVE_LST_IX_PER_TX as nat,
            ),
    {
        if !self.skip_fee_check {
            match verify_no_negative_fee(desired) {
                Ok(()) => {},
                Err(e) => {
                    return Err(e);
                },
            }
        }
        let actions = reconcile(desired, current, self.remove);
        Ok(batch_actions(&actions, MAX_SET_LST_FEE_IX_PER_TX, MAX_REMOVE_LST_IX_PER_TX))
    }
}

} // verus!
