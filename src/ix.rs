//! Protocol instructions as plain values, and the account-reference lists
//! they carry.

use vstd::prelude::*;
use crate::entry::key_eq;

verus! {

/// One account reference of an instruction.
#[derive(Clone, Copy, Debug, Eq)]
pub struct AccountRef {
    pub pubkey: [u8; 32],
    pub is_signer: bool,
    pub is_writable: bool,
}

impl PartialEq for AccountRef {
    fn eq(&self, o: &AccountRef) -> (r: bool) {
        key_eq(&self.pubkey, &o.pubkey) && self.is_signer == o.is_signer && self.is_writable == o.is_writable
    }
}

impl vstd::std_specs::cmp::PartialEqSpecImpl for AccountRef {
    open spec fn obeys_eq_spec() -> bool {
        true
    }

    open spec fn eq_spec(&self, o: &AccountRef) -> bool {
        *self == *o
    }
}

/// An instruction: the program it addresses, its account references and
/// its opaque payload.
#[derive(Debug)]
pub struct Ix {
    pub program_id: [u8; 32],
    pub accounts: Vec<AccountRef>,
    pub data: Vec<u8>,
}

/// The mathematical contents of an instruction.
pub struct IxView {
    pub program_id: [u8; 32],
    pub accounts: Seq<AccountRef>,
    pub data: Seq<u8>,
}

impl View for Ix {
    type V = IxView;

    open spec fn view(&self) -> IxView {
        IxView { program_id: self.program_id, accounts: self.accounts@, data: self.data@ }
    }
}

/// The contents of each instruction of a list.
pub open spec fn ix_views(s: Seq<Ix>) -> Seq<IxView> {
    s.map_values(|i: Ix| i@)
}

/// Pairs each key with the signer and writable flag at the same position;
/// the list is as long as the shortest of the three.
pub fn keys_signer_writable_to_metas(keys: &Vec<[u8; 32]>, signer: &Vec<bool>, writable: &Vec<bool>) -> (r: Vec<AccountRef>)
    ensures
        r@.len() == vstd::math::min(vstd::math::min(keys@.len() as int, signer@.len() as int), writable@.len() as int),
        forall|i: int| 0 <= i < r@.len() ==> #[trigger] r@[i] == (AccountRef {
            pubkey: keys@[i],
            is_signer: signer@[i],
            is_writable: writable@[i],
        }),
{
    let mut n = keys.len();
    if signer.len() < n {
        n = signer.len();
    }
    if writable.len() < n {
        n = writable.len();
    }
    let mut r: Vec<AccountRef> = Vec::new();
    let mut i: usize = 0;
    while i < n
        invariant
            0 <= i <= n,
            n <= keys@.len(),
            n <= signer@.len(),
            n <= writable@.len(),
            n == vstd::math::min(vstd::math::min(keys@.len() as int, signer@.len() as int), writable@.len() as int),
            r@.len() == i,
            forall|j: int| 0 <= j < i ==> #[trigger] r@[j] == (AccountRef {
                pubkey: keys@[j],
                is_signer: signer@[j],
                is_writable: writable@[j],
            }),
        decreases n - i,
    {
        r.push(AccountRef { pubkey: keys[i], is_signer: signer[i], is_writable: writable[i] });
        i = i + 1;
    }
    r
}

/// A copy of an instruction.
pub fn copy_ix(ix: &Ix) -> (r: Ix)
    ensures
        r@ == ix@,
{
    let mut accounts: Vec<AccountRef> = Vec::new();
    let mut i: usize = 0;
    while i < ix.accounts.len()
        invariant
            0 <= i <= ix.accounts@.len(),
            accounts@ == ix.accounts@.subrange(0, i as int),
        decreases ix.accounts@.len() - i,
    {
        accounts.push(ix.accounts[i]);
        i = i + 1;
        assert(accounts@ =~= ix.accounts@.subrange(0, i as int));
    }
    let mut data: Vec<u8> = Vec::new();
    let mut j: usize = 0;
    while j < ix.data.len()
        invariant
            0 <= j <= ix.data@.len(),
            data@ == ix.data@.subrange(0, j as int),
        decreases ix.data@.len() - j,
    {
        data.push(ix.data[j]);
        j = j + 1;
        assert(data@ =~= ix.data@.subrange(0, j as int));
    }
    assert(accounts@ =~= ix.accounts@);
    assert(data@ =~= ix.data@);
    Ix { program_id: ix.program_id, accounts, data }
}

} // verus!
