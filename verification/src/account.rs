//! Accounts, account metas and instructions as plain values.
use vstd::prelude::*;
use crate::pubkey::Pubkey;

verus! {

/// An account together with its address: the unit that executions take and give back.
#[derive(Clone, Debug)]
pub struct Account {
    pub address: Pubkey,
    pub lamports: u64,
    pub data: Vec<u8>,
    pub owner: Pubkey,
    pub executable: bool,
}

/// The mathematical value of an [`Account`].
pub struct AccountView {
    pub address: Seq<u8>,
    pub lamports: u64,
    pub data: Seq<u8>,
    pub owner: Seq<u8>,
    pub executable: bool,
}

impl View for Account {
    type V = AccountView;

    open spec fn view(&self) -> AccountView {
        AccountView {
            address: self.address@,
            lamports: self.lamports,
            data: self.data@,
            owner: self.owner@,
            executable: self.executable,
        }
    }
}

/// The views of a sequence of accounts, in order.
pub open spec fn accounts_view(accounts: Seq<Account>) -> Seq<AccountView> {
    accounts.map_values(|a: Account| a@)
}

/// The addresses of a sequence of accounts, in order.
pub open spec fn addresses_of(accounts: Seq<AccountView>) -> Seq<Seq<u8>> {
    accounts.map_values(|a: AccountView| a.address)
}

/// Copies a byte vector.
pub fn copy_bytes(v: &Vec<u8>) -> (r: Vec<u8>)
    ensures
        r@ == v@,
{
    let mut r: Vec<u8> = Vec::new();
    let mut i: usize = 0;
    while i < v.len()
        invariant
            i <= v.len(),
            r@ == v@.subrange(0, i as int),
        decreases v.len() - i,
    {
        r.push(v[i]);
        i = i + 1;
        proof {
            assert(r@ =~= v@.subrange(0, i as int));
        }
    }
    proof {
        assert(r@ =~= v@);
    }
    r
}

impl Account {
    /// A copy of the account with the same value.
    pub fn duplicate(&self) -> (r: Account)
        ensures
            r@ == self@,
    {
        Account {
            address: self.address,
            lamports: self.lamports,
            data: copy_bytes(&self.data),
            owner: self.owner,
            executable: self.executable,
        }
    }
}

/// Copies a list of accounts.
pub fn copy_accounts(v: &Vec<Account>) -> (r: Vec<Account>)
    ensures
        accounts_view(r@) == accounts_view(v@),
{
    let mut r: Vec<Account> = Vec::new();
    let mut i: usize = 0;
    while i < v.len()
        invariant
            i <= v.len(),
            r@.len() == i,
            forall|j: int| 0 <= j < i ==> #[trigger] r@[j]@ == v@[j]@,
        decreases v.len() - i,
    {
        r.push(v[i].duplicate());
        i = i + 1;
    }
    proof {
        assert(accounts_view(r@) =~= accounts_view(v@));
    }
    r
}

/// One account reference of an instruction.
#[derive(Clone, Copy, Debug)]
pub struct AccountMeta {
    pub pubkey: Pubkey,
    pub is_signer: bool,
    pub is_writable: bool,
}

/// The mathematical value of an [`AccountMeta`].
pub struct AccountMetaView {
    pub pubkey: Seq<u8>,
    pub is_signer: bool,
    pub is_writable: bool,
}

impl View for AccountMeta {
    type V = AccountMetaView;

    open spec fn view(&self) -> AccountMetaView {
        AccountMetaView { pubkey: self.pubkey@, is_signer: self.is_signer, is_writable: self.is_writable }
    }
}

impl AccountMeta {
    /// A writable account reference.
    pub fn new(pubkey: Pubkey, is_signer: bool) -> (r: AccountMeta)
        ensures
            r@ == (AccountMetaView { pubkey: pubkey@, is_signer, is_writable: true }),
    {
        AccountMeta { pubkey, is_signer, is_writable: true }
    }

    /// A read-only account reference.
    pub fn new_readonly(pubkey: Pubkey, is_signer: bool) -> (r: AccountMeta)
        ensures
            r@ == (AccountMetaView { pubkey: pubkey@, is_signer, is_writable: false }),
    {
        AccountMeta { pubkey, is_signer, is_writable: false }
    }
}

/// An instruction: the program to run, the accounts it touches and its data.
#[derive(Clone, Debug)]
pub struct Instruction {
    pub program_id: Pubkey,
    pub accounts: Vec<AccountMeta>,
    pub data: Vec<u8>,
}

/// The mathematical value of an [`Instruction`].
pub struct InstructionView {
    pub program_id: Seq<u8>,
    pub accounts: Seq<AccountMetaView>,
    pub data: Seq<u8>,
}

impl View for Instruction {
    type V = InstructionView;

    open spec fn view(&self) -> InstructionView {
        InstructionView {
            program_id: self.program_id@,
            accounts: self.accounts@.map_values(|m: AccountMeta| m@),
            data: self.data@,
        }
    }
}

/// The views of a sequence of instructions, in order.
pub open spec fn instructions_view(ixs: Seq<Instruction>) -> Seq<InstructionView> {
    ixs.map_values(|ix: Instruction| ix@)
}

} // verus!
