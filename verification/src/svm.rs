//! The SVM's state and the decisions of an execution: the account store, the
//! accounts a transaction sees, what an execution gives back and what it
//! commits. The runtime that runs the programs is driven from outside.
use vstd::prelude::*;
use crate::account::{Account, AccountView, Instruction, InstructionView, accounts_view, copy_accounts, copy_bytes, instructions_view};
use crate::error::{InstructionError, ProgramError};
use crate::ids::SYSTEM_PROGRAM_ID;
use crate::loader_keys::{is_loader, LOADER_V2, LOADER_V3};
use crate::program_cache::ProgramCache;
use crate::pubkey::Pubkey;
use solana_pubkey::Pubkey as Address;
use crate::rent::{minimum_balance_fits, spec_minimum_balance};
use crate::sysvars::Sysvars;
use crate::message::{
    all_roles, dedup_keys, has_key, instructions_sysvar_account, keys_view, legacy_message_fits,
    program_ids_of, build_instructions_sysvar, collect_program_ids,
};
use crate::ids::INSTRUCTIONS_SYSVAR_ID;
use crate::program_cache::{programdata_address, spec_program_accounts};
use crate::token::{
    pack_mint_into, pack_token_account_into, unpack_mint, unpack_token_account, Mint, MintView,
    TokenAccount, TokenAccountView,
};

verus! {

// ---------------------------------------------------------------------------
// Lists of accounts as stores
// ---------------------------------------------------------------------------

/// Whether some account in `s` is at `k`.
pub open spec fn has_address(s: Seq<AccountView>, k: Seq<u8>) -> bool {
    exists|i: int| 0 <= i < s.len() && s[i].address == k
}

/// Whether no two accounts in `s` share an address.
pub open spec fn addresses_distinct(s: Seq<AccountView>) -> bool {
    forall|i: int, j: int| 0 <= i < j < s.len() ==> #[trigger] s[i].address != #[trigger] s[j].address
}

/// The index of the first account in `s` at `k`.
pub open spec fn first_index(s: Seq<AccountView>, k: Seq<u8>) -> int {
    choose|i: int| 0 <= i < s.len() && s[i].address == k && forall|j: int| 0 <= j < i ==> s[j].address != k
}

/// The first account in `s` at `k`, if any.
pub open spec fn first_account(s: Seq<AccountView>, k: Seq<u8>) -> Option<AccountView> {
    if has_address(s, k) {
        Some(s[first_index(s, k)])
    } else {
        None
    }
}

/// The index of the first account at `pubkey`.
pub fn find_account(accounts: &Vec<Account>, pubkey: &Pubkey) -> (r: Option<usize>)
    ensures
        r matches Some(i) ==> i < accounts@.len() && i == first_index(accounts_view(accounts@), pubkey@)
            && accounts@[i as int].address@ == pubkey@,
        r is None <==> !has_address(accounts_view(accounts@), pubkey@),
{
    let ghost s = accounts_view(accounts@);
    let mut i: usize = 0;
    while i < accounts.len()
        invariant
            i <= accounts@.len(),
            s == accounts_view(accounts@),
            forall|j: int| 0 <= j < i ==> s[j].address != pubkey@,
        decreases accounts@.len() - i,
    {
        if accounts[i].address == *pubkey {
            proof {
                assert(s[i as int].address == pubkey@);
                let c = first_index(s, pubkey@);
                assert(0 <= c < s.len() && s[c].address == pubkey@ && forall|j: int| 0 <= j < c ==> s[j].address != pubkey@);
                if c < i {
                    assert(s[c].address != pubkey@);
                } else if c > i {
                    assert(s[i as int].address != pubkey@);
                }
            }
            return Some(i);
        }
        i = i + 1;
    }
    proof {
        if has_address(s, pubkey@) {
            let j = choose|j: int| 0 <= j < s.len() && s[j].address == pubkey@;
            assert(s[j].address != pubkey@);
        }
    }
    None
}

/// In a list of distinct addresses the first account at `k` is the only one.
proof fn lemma_first_is_only(s: Seq<AccountView>, k: Seq<u8>, i: int)
    requires
        addresses_distinct(s),
        0 <= i < s.len(),
        s[i].address == k,
    ensures
        has_address(s, k),
        first_index(s, k) == i,
        first_account(s, k) == Some(s[i]),
{
    let c = first_index(s, k);
    assert(forall|j: int| 0 <= j < i ==> s[j].address != k);
    assert(0 <= c < s.len() && s[c].address == k && forall|j: int| 0 <= j < c ==> s[j].address != k);
    if c < i {
        assert(s[c].address != s[i].address);
    } else if c > i {
        assert(s[i].address != k);
    }
}

/// `s` with `a` written at its address: replacing the first account there, or
/// appended.
pub open spec fn upsert_seq(s: Seq<AccountView>, a: AccountView) -> Seq<AccountView> {
    if has_address(s, a.address) {
        s.update(first_index(s, a.address), a)
    } else {
        s.push(a)
    }
}

/// `s` with each account of `t` written in order.
pub open spec fn upsert_all(s: Seq<AccountView>, t: Seq<AccountView>) -> Seq<AccountView>
    decreases t.len(),
{
    if t.len() == 0 {
        s
    } else {
        upsert_seq(upsert_all(s, t.drop_last()), t.last())
    }
}

/// Writes `account` into `store` (distinct addresses): it replaces the
/// account at its address, or is appended.
fn store_upsert(store: &mut Vec<Account>, account: Account)
    requires
        addresses_distinct(accounts_view(old(store)@)),
    ensures
        addresses_distinct(accounts_view(final(store)@)),
        accounts_view(final(store)@) == upsert_seq(accounts_view(old(store)@), account@),
        first_account(accounts_view(final(store)@), account.address@) == Some(account@),
        forall|k: Seq<u8>| k != account.address@ ==> #[trigger] first_account(accounts_view(final(store)@), k)
            == first_account(accounts_view(old(store)@), k),
        forall|k: Seq<u8>| has_address(accounts_view(old(store)@), k) ==> #[trigger] has_address(accounts_view(final(store)@), k),
        has_address(accounts_view(old(store)@), account.address@) ==> accounts_view(final(store)@).len() == accounts_view(old(store)@).len(),
        !has_address(accounts_view(old(store)@), account.address@) ==> accounts_view(final(store)@) == accounts_view(old(store)@).push(account@),
        has_address(accounts_view(old(store)@), account.address@) ==> accounts_view(final(store)@) == accounts_view(old(store)@).update(
            first_index(accounts_view(old(store)@), account.address@),
            account@,
        ),
{
    let ghost s0 = accounts_view(store@);
    let ghost a = account@;
    match find_account(store, &account.address) {
        Some(i) => {
            store.set(i, account);
            proof {
                let s1 = accounts_view(store@);
                assert(s1 =~= s0.update(i as int, a));
                assert forall|x: int, y: int| 0 <= x < y < s1.len() implies #[trigger] s1[x].address != #[trigger] s1[y].address by {
                    if x == i {
                        assert(s0[x].address == s1[x].address);
                    }
                    if y == i {
                        assert(s0[y].address == s1[y].address);
                    }
                    assert(s0[x].address != s0[y].address);
                }
                lemma_first_is_only(s1, a.address, i as int);
                assert forall|k: Seq<u8>| k != a.address implies #[trigger] first_account(s1, k) == first_account(s0, k) by {
                    if has_address(s0, k) {
                        let j = choose|j: int| 0 <= j < s0.len() && s0[j].address == k;
                        lemma_first_is_only(s0, k, j);
                        assert(s1[j] == s0[j]);
                        lemma_first_is_only(s1, k, j);
                    } else if has_address(s1, k) {
                        let j = choose|j: int| 0 <= j < s1.len() && s1[j].address == k;
                        assert(s0[j].address == k);
                    }
                }
                assert forall|k: Seq<u8>| has_address(s0, k) implies #[trigger] has_address(s1, k) by {
                    let j = choose|j: int| 0 <= j < s0.len() && s0[j].address == k;
                    assert(s1[j].address == k);
                }
            }
        },
        None => {
            store.push(account);
            proof {
                let s1 = accounts_view(store@);
                let n = s0.len() as int;
                assert(s1 =~= s0.push(a));
                assert forall|x: int, y: int| 0 <= x < y < s1.len() implies #[trigger] s1[x].address != #[trigger] s1[y].address by {
                    if y == n {
                        assert(s0[x].address != a.address);
                    } else {
                        assert(s0[x].address != s0[y].address);
                    }
                }
                lemma_first_is_only(s1, a.address, n);
                assert forall|k: Seq<u8>| k != a.address implies #[trigger] first_account(s1, k) == first_account(s0, k) by {
                    if has_address(s0, k) {
                        let j = choose|j: int| 0 <= j < s0.len() && s0[j].address == k;
                        lemma_first_is_only(s0, k, j);
                        lemma_first_is_only(s1, k, j);
                    } else if has_address(s1, k) {
                        let j = choose|j: int| 0 <= j < s1.len() && s1[j].address == k;
                        assert(j < n);
                        assert(s0[j].address == k);
                    }
                }
                assert forall|k: Seq<u8>| has_address(s0, k) implies #[trigger] has_address(s1, k) by {
                    let j = choose|j: int| 0 <= j < s0.len() && s0[j].address == k;
                    assert(s1[j].address == k);
                }
            }
        },
    }
}

// ---------------------------------------------------------------------------
// Execution results
// ---------------------------------------------------------------------------

/// A token balance read from a token account of an execution.
#[derive(Clone, Copy, Debug)]
pub struct TokenBalance {
    pub account_index: usize,
    pub mint: Pubkey,
    pub owner: Pubkey,
    pub amount: u64,
    pub decimals: u8,
}

/// The mathematical value of a [`TokenBalance`].
pub struct TokenBalanceView {
    pub account_index: usize,
    pub mint: Seq<u8>,
    pub owner: Seq<u8>,
    pub amount: u64,
    pub decimals: u8,
}

impl View for TokenBalance {
    type V = TokenBalanceView;

    open spec fn view(&self) -> TokenBalanceView {
        TokenBalanceView {
            account_index: self.account_index,
            mint: self.mint@,
            owner: self.owner@,
            amount: self.amount,
            decimals: self.decimals,
        }
    }
}

/// One program invocation of an execution.
#[derive(Clone, Copy, Debug)]
pub struct ExecutedInstruction {
    /// 0 for a top-level instruction, more for nested invocations.
    pub nesting_level: u8,
    /// The program that was invoked.
    pub program_id: Pubkey,
    /// Whether this invocation succeeded.
    pub succeeded: bool,
}

/// The mathematical value of an [`ExecutedInstruction`].
pub struct ExecutedInstructionView {
    pub nesting_level: u8,
    pub program_id: Seq<u8>,
    pub succeeded: bool,
}

impl View for ExecutedInstruction {
    type V = ExecutedInstructionView;

    open spec fn view(&self) -> ExecutedInstructionView {
        ExecutedInstructionView { nesting_level: self.nesting_level, program_id: self.program_id@, succeeded: self.succeeded }
    }
}

/// Every program invocation of an execution, in order.
pub struct ExecutionTrace {
    pub instructions: Vec<ExecutedInstruction>,
}

/// A nested invocation, by account index.
pub struct InnerInstruction {
    pub program_id_index: u8,
    pub accounts: Vec<u8>,
    pub data: Vec<u8>,
}

/// The mathematical value of an [`InnerInstruction`].
pub struct InnerInstructionView {
    pub program_id_index: u8,
    pub accounts: Seq<u8>,
    pub data: Seq<u8>,
}

impl View for InnerInstruction {
    type V = InnerInstructionView;

    open spec fn view(&self) -> InnerInstructionView {
        InnerInstructionView { program_id_index: self.program_id_index, accounts: self.accounts@, data: self.data@ }
    }
}

/// The nested invocations made under one top-level instruction.
pub struct InnerInstructions {
    pub index: u8,
    pub instructions: Vec<InnerInstruction>,
}

/// The mathematical value of an [`InnerInstructions`].
pub struct InnerInstructionsView {
    pub index: u8,
    pub instructions: Seq<InnerInstructionView>,
}

impl View for InnerInstructions {
    type V = InnerInstructionsView;

    open spec fn view(&self) -> InnerInstructionsView {
        InnerInstructionsView { index: self.index, instructions: self.instructions@.map_values(|i: InnerInstruction| i@) }
    }
}

/// What an execution gives back.
pub struct ExecutionResult {
    pub compute_units_consumed: u64,
    pub execution_time_us: u64,
    pub raw_result: Result<(), InstructionError>,
    pub return_data: Vec<u8>,
    pub accounts: Vec<Account>,
    pub logs: Vec<String>,
    pub pre_balances: Vec<u64>,
    pub post_balances: Vec<u64>,
    pub pre_token_balances: Vec<TokenBalance>,
    pub post_token_balances: Vec<TokenBalance>,
    pub inner_instructions: Vec<InnerInstructions>,
    pub execution_trace: ExecutionTrace,
}

/// Whether an execution succeeded, and the error it failed with if not.
#[derive(Clone, Debug, PartialEq, Eq)]
pub enum ExecutionStatus {
    Success,
    Error(ProgramError),
}

impl ExecutionResult {
    /// `Success`, or the program error the execution failed with.
    pub fn status(&self) -> (r: ExecutionStatus)
        ensures
            self.raw_result is Ok ==> r == ExecutionStatus::Success,
            self.raw_result matches Err(e) ==> (r matches ExecutionStatus::Error(p) && (
                crate::error::spec_program_error_kind(e) matches Some(q) ==> p == q) && (
                crate::error::spec_program_error_kind(e) is None ==> (p matches ProgramError::Runtime(m)
                    && m@ == crate::error::spec_error_name(e)))),
    {
        match &self.raw_result {
            Ok(()) => ExecutionStatus::Success,
            Err(e) => ExecutionStatus::Error(ProgramError::from_instruction_error(e)),
        }
    }

    /// Whether the execution succeeded.
    pub fn is_ok(&self) -> (r: bool)
        ensures
            r == self.raw_result is Ok,
    {
        self.raw_result.is_ok()
    }

    /// Whether the execution failed.
    pub fn is_err(&self) -> (r: bool)
        ensures
            r == self.raw_result is Err,
    {
        self.raw_result.is_err()
    }

    /// The resulting account at `pubkey` (the first, should there be several).
    pub fn account(&self, pubkey: &Pubkey) -> (r: Option<&Account>)
        ensures
            match first_account(accounts_view(self.accounts@), pubkey@) {
                Some(a) => r matches Some(x) && x@ == a,
                None => r is None,
            },
    {
        match find_account(&self.accounts, pubkey) {
            Some(i) => Some(&self.accounts[i]),
            None => None,
        }
    }

    /// The lamports of the resulting account at `pubkey`, 0 when there is none.
    pub fn lamports(&self, pubkey: &Pubkey) -> (r: u64)
        ensures
            match first_account(accounts_view(self.accounts@), pubkey@) {
                Some(a) => r == a.lamports,
                None => r == 0,
            },
    {
        match self.account(pubkey) {
            Some(a) => a.lamports,
            None => 0,
        }
    }

    /// The data of the resulting account at `pubkey`.
    pub fn data(&self, pubkey: &Pubkey) -> (r: Option<&[u8]>)
        ensures
            match first_account(accounts_view(self.accounts@), pubkey@) {
                Some(a) => r matches Some(d) && d@ == a.data,
                None => r is None,
            },
    {
        match self.account(pubkey) {
            Some(a) => Some(a.data.as_slice()),
            None => None,
        }
    }
}

// ---------------------------------------------------------------------------
// The SVM
// ---------------------------------------------------------------------------

/// Which of the bundled SPL programs to load.
#[derive(Clone, Copy, Debug)]
pub struct QuasarSvmConfig {
    /// Load SPL Token (default: true).
    pub token: bool,
    /// Load SPL Token-2022 (default: true).
    pub token_2022: bool,
    /// Load SPL Associated Token Account (default: true).
    pub associated_token: bool,
}

impl QuasarSvmConfig {
    /// Every bundled program loaded.
    pub fn new() -> (r: QuasarSvmConfig)
        ensures
            r.token && r.token_2022 && r.associated_token,
    {
        QuasarSvmConfig { token: true, token_2022: true, associated_token: true }
    }
}

/// The ELF images of the bundled SPL programs.
pub struct BundledPrograms {
    pub spl_token: Vec<u8>,
    pub spl_token_2022: Vec<u8>,
    pub spl_associated_token: Vec<u8>,
}

/// The program registered at `k` in an SVM made with `config`: a selected
/// bundled program (SPL Token and the associated token program under the v2
/// loader, Token-2022 under the upgradeable loader), else the builtin there.
pub open spec fn configured_entry(config: QuasarSvmConfig, bundled: &BundledPrograms, k: Seq<u8>) -> Option<
    crate::program_cache::ProgramEntryView,
> {
    if config.token && k == crate::ids::SPL_TOKEN_PROGRAM_ID@ {
        Some(crate::program_cache::ProgramEntryView { loader_key: LOADER_V2@, elf: Some(bundled.spl_token@) })
    } else if config.token_2022 && k == crate::ids::SPL_TOKEN_2022_PROGRAM_ID@ {
        Some(crate::program_cache::ProgramEntryView { loader_key: LOADER_V3@, elf: Some(bundled.spl_token_2022@) })
    } else if config.associated_token && k == crate::ids::SPL_ASSOCIATED_TOKEN_PROGRAM_ID@ {
        Some(crate::program_cache::ProgramEntryView { loader_key: LOADER_V2@, elf: Some(bundled.spl_associated_token@) })
    } else {
        crate::program_cache::builtin_entry(k)
    }
}

/// An SVM: its sysvars, the programs it knows, and its account store.
pub struct QuasarSvm {
    pub sysvars: Sysvars,
    pub program_cache: ProgramCache,
    pub accounts: Vec<Account>,
}

/// A system-owned account with `lamports` and nothing else.
pub open spec fn system_account(key: Seq<u8>, lamports: u64) -> AccountView {
    AccountView { address: key, lamports, data: Seq::empty(), owner: SYSTEM_PROGRAM_ID@, executable: false }
}

impl QuasarSvm {
    /// The stored accounts, in the order they were first stored.
    pub open spec fn store(&self) -> Seq<AccountView> {
        accounts_view(self.accounts@)
    }

    /// The stored account at `k`, if any.
    pub open spec fn stored(&self, k: Seq<u8>) -> Option<AccountView> {
        first_account(self.store(), k)
    }

    /// Stored addresses are distinct; sysvars and programs are well formed.
    pub open spec fn wf(&self) -> bool {
        &&& addresses_distinct(self.store())
        &&& self.sysvars.wf()
        &&& self.program_cache.wf()
    }

    /// An SVM with the initial sysvars, the builtin programs and no accounts.
    pub fn new() -> (r: QuasarSvm)
        ensures
            r.wf(),
            r.store() == Seq::<AccountView>::empty(),
            r.sysvars.is_initial(),
            forall|k: Seq<u8>| #[trigger] r.program_cache.entry(k) == crate::program_cache::builtin_entry(k),
    {
        let r = QuasarSvm { sysvars: Sysvars::new(), program_cache: ProgramCache::new(), accounts: Vec::new() };
        proof {
            assert(r.store() =~= Seq::<AccountView>::empty());
        }
        r
    }

    /// An SVM with the bundled programs that `config` selects: SPL Token
    /// under the v2 loader, Token-2022 under the upgradeable loader, and the
    /// associated token program under the v2 loader.
    pub fn new_with_config(config: QuasarSvmConfig, bundled: &BundledPrograms) -> (r: QuasarSvm)
        ensures
            r.wf(),
            r.store() == Seq::<AccountView>::empty(),
            r.sysvars.is_initial(),
            forall|k: Seq<u8>| #[trigger] r.program_cache.entry(k) == configured_entry(config, bundled, k),
    {
        let ghost t = crate::ids::SPL_TOKEN_PROGRAM_ID@;
        let ghost t22 = crate::ids::SPL_TOKEN_2022_PROGRAM_ID@;
        let ghost ata = crate::ids::SPL_ASSOCIATED_TOKEN_PROGRAM_ID@;
        proof {
            assert(t != t22) by {
                assert(t[4] != t22[4]);
            }
            assert(t != ata) by {
                assert(t[0] != ata[0]);
            }
            assert(t22 != ata) by {
                assert(t22[0] != ata[0]);
            }
        }
        let mut svm = QuasarSvm::new();
        if config.token {
            svm.add_program(
                &Pubkey::new_from_array(crate::ids::SPL_TOKEN_PROGRAM_ID),
                &Pubkey::new_from_array(LOADER_V2),
                bundled.spl_token.as_slice(),
            );
        }
        assert(forall|k: Seq<u8>| #[trigger] svm.program_cache.entry(k) == if config.token && k == t {
            Some(crate::program_cache::ProgramEntryView { loader_key: LOADER_V2@, elf: Some(bundled.spl_token@) })
        } else {
            crate::program_cache::builtin_entry(k)
        });
        if config.token_2022 {
            svm.add_program(
                &Pubkey::new_from_array(crate::ids::SPL_TOKEN_2022_PROGRAM_ID),
                &Pubkey::new_from_array(LOADER_V3),
                bundled.spl_token_2022.as_slice(),
            );
        }
        assert(forall|k: Seq<u8>| #[trigger] svm.program_cache.entry(k) == if config.token && k == t {
            Some(crate::program_cache::ProgramEntryView { loader_key: LOADER_V2@, elf: Some(bundled.spl_token@) })
        } else if config.token_2022 && k == t22 {
            Some(crate::program_cache::ProgramEntryView { loader_key: LOADER_V3@, elf: Some(bundled.spl_token_2022@) })
        } else {
            crate::program_cache::builtin_entry(k)
        });
        if config.associated_token {
            svm.add_program(
                &Pubkey::new_from_array(crate::ids::SPL_ASSOCIATED_TOKEN_PROGRAM_ID),
                &Pubkey::new_from_array(LOADER_V2),
                bundled.spl_associated_token.as_slice(),
            );
        }
        assert(forall|k: Seq<u8>| #[trigger] svm.program_cache.entry(k) == configured_entry(config, bundled, k));
        svm
    }

    /// Registers the program at `program_id`, loaded from `elf` under `loader_key`.
    pub fn add_program(&mut self, program_id: &Pubkey, loader_key: &Pubkey, elf: &[u8])
        requires
            old(self).wf(),
            is_loader(loader_key@),
        ensures
            final(self).wf(),
            final(self).store() == old(self).store(),
            final(self).sysvars == old(self).sysvars,
            final(self).program_cache.entry(program_id@) == Some(
                crate::program_cache::ProgramEntryView { loader_key: loader_key@, elf: Some(elf@) },
            ),
            forall|k: Seq<u8>| k != program_id@ ==> #[trigger] final(self).program_cache.entry(k)
                == old(self).program_cache.entry(k),
    {
        self.program_cache.add_program(program_id, loader_key, elf);
    }

    /// Stores `account` at its address, replacing any account there.
    pub fn set_account(&mut self, account: Account)
        requires
            old(self).wf(),
        ensures
            final(self).wf(),
            final(self).store() == upsert_seq(old(self).store(), account@),
            final(self).stored(account.address@) == Some(account@),
            forall|k: Seq<u8>| k != account.address@ ==> #[trigger] final(self).stored(k) == old(self).stored(k),
            final(self).sysvars == old(self).sysvars,
            final(self).program_cache == old(self).program_cache,
    {
        store_upsert(&mut self.accounts, account);
    }

    /// The stored account at `pubkey`, if any.
    pub fn get_account(&self, pubkey: &Pubkey) -> (r: Option<Account>)
        requires
            self.wf(),
        ensures
            match self.stored(pubkey@) {
                Some(a) => r matches Some(x) && x@ == a,
                None => r is None,
            },
    {
        match find_account(&self.accounts, pubkey) {
            Some(i) => Some(self.accounts[i].duplicate()),
            None => None,
        }
    }

    /// Gives `lamports` to the account at `pubkey`, creating a system-owned
    /// account if there is none; an existing account keeps its data, owner
    /// and executable flag.
    pub fn airdrop(&mut self, pubkey: &Pubkey, lamports: u64)
        requires
            old(self).wf(),
            old(self).stored(pubkey@) matches Some(a) ==> a.lamports + lamports <= u64::MAX,
        ensures
            final(self).wf(),
            final(self).stored(pubkey@) == Some(
                match old(self).stored(pubkey@) {
                    Some(a) => AccountView { lamports: (a.lamports + lamports) as u64, ..a },
                    None => system_account(pubkey@, lamports),
                },
            ),
            forall|k: Seq<u8>| k != pubkey@ ==> #[trigger] final(self).stored(k) == old(self).stored(k),
            final(self).sysvars == old(self).sysvars,
            final(self).program_cache == old(self).program_cache,
    {
        let account = match find_account(&self.accounts, pubkey) {
            Some(i) => {
                let a = &self.accounts[i];
                Account {
                    address: *pubkey,
                    lamports: a.lamports + lamports,
                    data: copy_bytes(&a.data),
                    owner: a.owner,
                    executable: a.executable,
                }
            },
            None => Account {
                address: *pubkey,
                lamports,
                data: Vec::new(),
                owner: Pubkey::new_from_array(SYSTEM_PROGRAM_ID),
                executable: false,
            },
        };
        proof {
            if has_address(self.store(), pubkey@) {
                let i = first_index(self.store(), pubkey@);
                assert(account@ == AccountView { lamports: (self.store()[i].lamports + lamports) as u64, ..self.store()[i] });
            } else {
                assert(account@ == system_account(pubkey@, lamports));
            }
        }
        self.set_account(account);
    }

    /// Creates a rent-exempt account at `pubkey` with `space` zero bytes of
    /// data owned by `owner`, replacing any account there.
    pub fn create_account(&mut self, pubkey: &Pubkey, space: usize, owner: &Pubkey)
        requires
            old(self).wf(),
            minimum_balance_fits(old(self).sysvars.rent, space),
        ensures
            final(self).wf(),
            final(self).stored(pubkey@) == Some(
                AccountView {
                    address: pubkey@,
                    lamports: spec_minimum_balance(
                        old(self).sysvars.rent.lamports_per_byte_year,
                        old(self).sysvars.rent.exemption_threshold_bits,
                        old(self).sysvars.rent.burn_percent,
                        space,
                    ),
                    data: Seq::new(space as nat, |i: int| 0u8),
                    owner: owner@,
                    executable: false,
                },
            ),
            forall|k: Seq<u8>| k != pubkey@ ==> #[trigger] final(self).stored(k) == old(self).stored(k),
            final(self).sysvars == old(self).sysvars,
            final(self).program_cache == old(self).program_cache,
    {
        let lamports = self.sysvars.rent.minimum_balance(space);
        let data: Vec<u8> = vec![0u8; space];
        proof {
            assert(data@ =~= Seq::new(space as nat, |i: int| 0u8));
        }
        self.set_account(Account { address: *pubkey, lamports, data, owner: *owner, executable: false });
    }

    /// Sets the amount of the stored token account at `address`.
    pub fn set_token_balance(&mut self, address: &Pubkey, amount: u64)
        requires
            old(self).wf(),
            old(self).stored(address@) matches Some(a) && unpack_token_account(a.data) is Some,
        ensures
            final(self).wf(),
            ({
                let a = old(self).stored(address@).unwrap();
                let t = unpack_token_account(a.data).unwrap();
                final(self).stored(address@) == Some(
                    AccountView { data: pack_token_account_into(TokenAccountView { amount, ..t }, a.data), ..a },
                )
            }),
            forall|k: Seq<u8>| k != address@ ==> #[trigger] final(self).stored(k) == old(self).stored(k),
            final(self).sysvars == old(self).sysvars,
            final(self).program_cache == old(self).program_cache,
    {
        let i = match find_account(&self.accounts, address) {
            Some(i) => i,
            None => 0,
        };
        let mut acct = self.accounts[i].duplicate();
        let token = match TokenAccount::unpack(acct.data.as_slice()) {
            Some(t) => t,
            None => {
                return;
            },
        };
        let updated = TokenAccount { amount, ..token };
        updated.pack_into(&mut acct.data);
        self.set_account(acct);
    }

    /// Sets the supply of the stored mint at `address`.
    pub fn set_mint_supply(&mut self, address: &Pubkey, supply: u64)
        requires
            old(self).wf(),
            old(self).stored(address@) matches Some(a) && unpack_mint(a.data) is Some,
        ensures
            final(self).wf(),
            ({
                let a = old(self).stored(address@).unwrap();
                let m = unpack_mint(a.data).unwrap();
                final(self).stored(address@) == Some(
                    AccountView { data: pack_mint_into(MintView { supply, ..m }, a.data), ..a },
                )
            }),
            forall|k: Seq<u8>| k != address@ ==> #[trigger] final(self).stored(k) == old(self).stored(k),
            final(self).sysvars == old(self).sysvars,
            final(self).program_cache == old(self).program_cache,
    {
        let i = match find_account(&self.accounts, address) {
            Some(i) => i,
            None => 0,
        };
        let mut acct = self.accounts[i].duplicate();
        let mint = match Mint::unpack(acct.data.as_slice()) {
            Some(m) => m,
            None => {
                return;
            },
        };
        let updated = Mint { supply, ..mint };
        updated.pack_into(&mut acct.data);
        self.set_account(acct);
    }

    /// Sets the clock's Unix timestamp, and nothing else.
    pub fn warp_to_timestamp(&mut self, timestamp: i64)
        ensures
            final(self).sysvars.clock == (crate::sysvars::Clock { unix_timestamp: timestamp, ..old(self).sysvars.clock }),
            final(self).store() == old(self).store(),
            final(self).sysvars.slot_hash_entries() == old(self).sysvars.slot_hash_entries(),
            final(self).sysvars.epoch_schedule == old(self).sysvars.epoch_schedule,
            final(self).sysvars.rent == old(self).sysvars.rent,
            final(self).sysvars.last_restart_slot == old(self).sysvars.last_restart_slot,
            final(self).sysvars.epoch_rewards_data@ == old(self).sysvars.epoch_rewards_data@,
            final(self).sysvars.stake_history_data@ == old(self).sysvars.stake_history_data@,
            final(self).sysvars.recent_blockhashes_data@ == old(self).sysvars.recent_blockhashes_data@,
            final(self).program_cache == old(self).program_cache,
            old(self).wf() ==> final(self).wf(),
    {
        self.sysvars.clock.unix_timestamp = timestamp;
    }

    /// Moves the clock to `slot` (see [`Sysvars::warp_to_slot`]).
    pub fn warp_to_slot(&mut self, slot: u64)
        requires
            old(self).wf(),
            old(self).sysvars.epoch_schedule.slot_placeable(slot),
        ensures
            final(self).wf(),
            crate::sysvars::warped_to(old(self).sysvars, final(self).sysvars, slot),
            final(self).store() == old(self).store(),
            final(self).program_cache == old(self).program_cache,
    {
        self.sysvars.warp_to_slot(slot);
    }

    // -----------------------------------------------------------------------
    // Builders
    // -----------------------------------------------------------------------

    /// Registers a program under the upgradeable loader.
    pub fn with_program(self, program_id: &Pubkey, elf: &[u8]) -> (r: QuasarSvm)
        requires
            self.wf(),
        ensures
            r.wf(),
            r.store() == self.store(),
            r.sysvars == self.sysvars,
            r.program_cache.entry(program_id@) == Some(crate::program_cache::ProgramEntryView { loader_key: LOADER_V3@, elf: Some(elf@) }),
            forall|k: Seq<u8>| k != program_id@ ==> #[trigger] r.program_cache.entry(k) == self.program_cache.entry(k),
    {
        let mut s = self;
        s.add_program(program_id, &Pubkey::new_from_array(LOADER_V3), elf);
        s
    }

    /// Registers a program under `loader`.
    pub fn with_program_loader(self, program_id: &Pubkey, loader: &Pubkey, elf: &[u8]) -> (r: QuasarSvm)
        requires
            self.wf(),
            is_loader(loader@),
        ensures
            r.wf(),
            r.store() == self.store(),
            r.sysvars == self.sysvars,
            r.program_cache.entry(program_id@) == Some(crate::program_cache::ProgramEntryView { loader_key: loader@, elf: Some(elf@) }),
            forall|k: Seq<u8>| k != program_id@ ==> #[trigger] r.program_cache.entry(k) == self.program_cache.entry(k),
    {
        let mut s = self;
        s.add_program(program_id, loader, elf);
        s
    }

    /// The system program is always there: the SVM unchanged.
    pub fn with_system_program(self) -> (r: QuasarSvm)
        ensures
            r == self,
    {
        self
    }

    /// Registers SPL Token from `elf` under the v2 loader.
    pub fn with_token_program(self, elf: &[u8]) -> (r: QuasarSvm)
        requires
            self.wf(),
        ensures
            r.wf(),
            r.store() == self.store(),
            r.sysvars == self.sysvars,
            r.program_cache.entry(crate::ids::SPL_TOKEN_PROGRAM_ID@) == Some(crate::program_cache::ProgramEntryView { loader_key: LOADER_V2@, elf: Some(elf@) }),
    {
        self.with_program_loader(&Pubkey::new_from_array(crate::ids::SPL_TOKEN_PROGRAM_ID), &Pubkey::new_from_array(LOADER_V2), elf)
    }

    /// Registers SPL Token-2022 from `elf` under the upgradeable loader.
    pub fn with_token_2022_program(self, elf: &[u8]) -> (r: QuasarSvm)
        requires
            self.wf(),
        ensures
            r.wf(),
            r.store() == self.store(),
            r.sysvars == self.sysvars,
            r.program_cache.entry(crate::ids::SPL_TOKEN_2022_PROGRAM_ID@) == Some(crate::program_cache::ProgramEntryView { loader_key: LOADER_V3@, elf: Some(elf@) }),
    {
        self.with_program(&Pubkey::new_from_array(crate::ids::SPL_TOKEN_2022_PROGRAM_ID), elf)
    }

    /// Registers the associated token program from `elf` under the v2 loader.
    pub fn with_associated_token_program(self, elf: &[u8]) -> (r: QuasarSvm)
        requires
            self.wf(),
        ensures
            r.wf(),
            r.store() == self.store(),
            r.sysvars == self.sysvars,
            r.program_cache.entry(crate::ids::SPL_ASSOCIATED_TOKEN_PROGRAM_ID@) == Some(crate::program_cache::ProgramEntryView { loader_key: LOADER_V2@, elf: Some(elf@) }),
    {
        self.with_program_loader(&Pubkey::new_from_array(crate::ids::SPL_ASSOCIATED_TOKEN_PROGRAM_ID), &Pubkey::new_from_array(LOADER_V2), elf)
    }

    /// Stores `account` (see [`QuasarSvm::set_account`]).
    pub fn with_account(self, account: Account) -> (r: QuasarSvm)
        requires
            self.wf(),
        ensures
            r.wf(),
            r.stored(account.address@) == Some(account@),
            forall|k: Seq<u8>| k != account.address@ ==> #[trigger] r.stored(k) == self.stored(k),
            r.sysvars == self.sysvars,
            r.program_cache == self.program_cache,
            r.store() == upsert_seq(self.store(), account@),
    {
        let mut s = self;
        s.set_account(account);
        s
    }

    /// Moves the clock to `slot` (see [`Sysvars::warp_to_slot`]).
    pub fn with_slot(self, slot: u64) -> (r: QuasarSvm)
        requires
            self.wf(),
            self.sysvars.epoch_schedule.slot_placeable(slot),
        ensures
            r.wf(),
            crate::sysvars::warped_to(self.sysvars, r.sysvars, slot),
            r.store() == self.store(),
            r.program_cache == self.program_cache,
    {
        let mut s = self;
        s.warp_to_slot(slot);
        s
    }

    /// Gives lamports (see [`QuasarSvm::airdrop`]).
    pub fn with_airdrop(self, pubkey: &Pubkey, lamports: u64) -> (r: QuasarSvm)
        requires
            self.wf(),
            self.stored(pubkey@) matches Some(a) ==> a.lamports + lamports <= u64::MAX,
        ensures
            r.wf(),
            r.stored(pubkey@) == Some(
                match self.stored(pubkey@) {
                    Some(a) => AccountView { lamports: (a.lamports + lamports) as u64, ..a },
                    None => system_account(pubkey@, lamports),
                },
            ),
            forall|k: Seq<u8>| k != pubkey@ ==> #[trigger] r.stored(k) == self.stored(k),
            r.sysvars == self.sysvars,
            r.program_cache == self.program_cache,
    {
        let mut s = self;
        s.airdrop(pubkey, lamports);
        s
    }

    /// Creates a rent-exempt account (see [`QuasarSvm::create_account`]).
    pub fn with_create_account(self, pubkey: &Pubkey, space: usize, owner: &Pubkey) -> (r: QuasarSvm)
        requires
            self.wf(),
            minimum_balance_fits(self.sysvars.rent, space),
        ensures
            r.wf(),
            r.stored(pubkey@) == Some(
                AccountView {
                    address: pubkey@,
                    lamports: spec_minimum_balance(
                        self.sysvars.rent.lamports_per_byte_year,
                        self.sysvars.rent.exemption_threshold_bits,
                        self.sysvars.rent.burn_percent,
                        space,
                    ),
                    data: Seq::new(space as nat, |i: int| 0u8),
                    owner: owner@,
                    executable: false,
                },
            ),
            forall|k: Seq<u8>| k != pubkey@ ==> #[trigger] r.stored(k) == self.stored(k),
            r.sysvars == self.sysvars,
            r.program_cache == self.program_cache,
    {
        let mut s = self;
        s.create_account(pubkey, space, owner);
        s
    }
}


// ---------------------------------------------------------------------------
// The accounts a transaction sees
// ---------------------------------------------------------------------------

/// Whether the byte string `a` comes before `b` in lexicographic order, the
/// order of addresses.
pub open spec fn bytes_lt(a: Seq<u8>, b: Seq<u8>) -> bool
    decreases a.len(),
{
    if a.len() == 0 {
        b.len() > 0
    } else if b.len() == 0 {
        false
    } else if a[0] != b[0] {
        a[0] < b[0]
    } else {
        bytes_lt(a.drop_first(), b.drop_first())
    }
}

/// `k` inserted into the address-ordered `sorted` before the first key it
/// comes before.
pub open spec fn insert_by_address(sorted: Seq<Seq<u8>>, k: Seq<u8>) -> Seq<Seq<u8>>
    decreases sorted.len(),
{
    if sorted.len() == 0 {
        seq![k]
    } else if bytes_lt(k, sorted[0]) {
        seq![k] + sorted
    } else {
        seq![sorted[0]] + insert_by_address(sorted.drop_first(), k)
    }
}

/// The keys of `s` in address order.
pub open spec fn sort_by_address(s: Seq<Seq<u8>>) -> Seq<Seq<u8>>
    decreases s.len(),
{
    if s.len() == 0 {
        Seq::empty()
    } else {
        insert_by_address(sort_by_address(s.drop_last()), s.last())
    }
}

/// The keys of the legacy message that `solana_message::Message::new` compiles
/// from these instructions with no fee payer: each key the instructions name,
/// with every role any use gives it (a program id none of its own), grouped
/// as writable signers, read-only signers, writable non-signers and read-only
/// non-signers, each group in address order (the order of the map the keys
/// are collected in).
#[verifier::opaque]
pub open spec fn spec_legacy_message_keys(ixs: Seq<InstructionView>) -> Seq<Seq<u8>> {
    let m = crate::message::collect_roles(all_roles(ixs));
    sort_by_address(crate::message::bucket(m, true, true)) + sort_by_address(crate::message::bucket(m, true, false))
        + sort_by_address(crate::message::bucket(m, false, true)) + sort_by_address(
        crate::message::bucket(m, false, false),
    )
}

/// Calls `solana_message::Message::new(instructions, None)` and takes its
/// account keys, which `spec_legacy_message_keys` writes out; the source
/// collects every program id and account meta key into a map, so the keys
/// are distinct and are exactly the keys the instructions name. It panics
/// when a role group is too large to count in a byte, which the `requires`
/// rules out.
#[verifier::external_body]
fn legacy_message_keys(instructions: &Vec<Instruction>) -> (r: Vec<Pubkey>)
    requires
        legacy_message_fits(instructions_view(instructions@)),
    ensures
        keys_view(r@) == spec_legacy_message_keys(instructions_view(instructions@)),
        forall|i: int, j: int| 0 <= i < j < r@.len() ==> #[trigger] r@[i]@ != #[trigger] r@[j]@,
        forall|k: Seq<u8>| #[trigger] keys_view(r@).contains(k) <==> has_key(all_roles(instructions_view(instructions@)), k),
{
    let ixs: Vec<solana_instruction::Instruction> = instructions.iter().map(|ix| solana_instruction::Instruction {
        program_id: Address::new_from_array(ix.program_id.bytes),
        accounts: ix.accounts.iter().map(|m| solana_instruction::AccountMeta { pubkey: Address::new_from_array(m.pubkey.bytes), is_signer: m.is_signer, is_writable: m.is_writable }).collect(),
        data: ix.data.clone(),
    }).collect();
    solana_message::Message::new(&ixs, None).account_keys.iter().map(|k| Pubkey { bytes: k.to_bytes() }).collect()
}

/// An executable account with nothing in it: what stands for a program the
/// SVM does not know.
pub open spec fn program_stub(key: Seq<u8>) -> AccountView {
    AccountView { address: key, lamports: 0, data: Seq::empty(), owner: SYSTEM_PROGRAM_ID@, executable: true }
}

/// An empty account: what stands for an address nothing else provides.
pub open spec fn empty_account(key: Seq<u8>) -> AccountView {
    AccountView { address: key, lamports: 0, data: Seq::empty(), owner: SYSTEM_PROGRAM_ID@, executable: false }
}

/// The index of the last account in `s` at `k`.
pub open spec fn last_index(s: Seq<AccountView>, k: Seq<u8>) -> int {
    choose|i: int| 0 <= i < s.len() && s[i].address == k && forall|j: int| i < j < s.len() ==> s[j].address != k
}

/// Whether the program at `k` has its accounts: not an upgradeable program
/// whose program-data address cannot be derived.
pub open spec fn derivable(cache: ProgramCache, k: Seq<u8>) -> bool {
    (cache.entry(k) matches Some(e) && e.loader_key == LOADER_V3@) ==> programdata_address(k) is Some
}

impl QuasarSvm {
    /// The accounts standing for the programs `pids` (those not provided): the
    /// program's accounts, or an executable stub for an unknown program.
    pub open spec fn program_fallbacks(&self, pids: Seq<Seq<u8>>, provided: Seq<AccountView>) -> Seq<AccountView>
        decreases pids.len(),
    {
        if pids.len() == 0 {
            Seq::empty()
        } else {
            self.program_fallbacks(pids.drop_last(), provided) + self.program_fallback_of(pids.last(), provided)
        }
    }

    /// The accounts standing for the top-level program `pid`: none when it
    /// was provided; else its accounts, or a stub when it has none.
    pub open spec fn program_fallback_of(&self, pid: Seq<u8>, provided: Seq<AccountView>) -> Seq<AccountView> {
        if has_address(provided, pid) {
            Seq::empty()
        } else {
            let accs = spec_program_accounts(pid, self.program_cache.entry(pid));
            if accs.len() == 0 {
                seq![program_stub(pid)]
            } else {
                accs
            }
        }
    }

    /// The fallback accounts of a transaction: for each top-level program not
    /// provided, its accounts; then, unless provided, the instructions sysvar.
    /// A later account at the same address takes precedence.
    pub open spec fn fallbacks(&self, ixs: Seq<InstructionView>, provided: Seq<AccountView>) -> Seq<AccountView> {
        self.program_fallbacks(dedup_keys(program_ids_of(ixs)), provided) + if has_address(
            provided,
            INSTRUCTIONS_SYSVAR_ID@,
        ) {
            Seq::empty()
        } else {
            seq![instructions_sysvar_account(ixs)]
        }
    }

    /// The account a transaction sees at key `k`: the first provided one; else
    /// the last fallback; else a sysvar; else the program's own account; else
    /// an empty account.
    pub open spec fn resolve(&self, ixs: Seq<InstructionView>, provided: Seq<AccountView>, k: Seq<u8>) -> AccountView {
        let fb = self.fallbacks(ixs, provided);
        let pa = spec_program_accounts(k, self.program_cache.entry(k));
        if has_address(provided, k) {
            provided[first_index(provided, k)]
        } else if has_address(fb, k) {
            fb[last_index(fb, k)]
        } else if self.sysvars.sysvar_account(k) is Some {
            self.sysvars.sysvar_account(k).unwrap()
        } else if has_address(pa, k) {
            pa[first_index(pa, k)]
        } else {
            empty_account(k)
        }
    }

    /// Whether every program account a transaction needs can be built: for
    /// the top-level programs not provided, and for every key that nothing
    /// before the program accounts provides.
    pub open spec fn accounts_derivable(&self, ixs: Seq<InstructionView>, provided: Seq<AccountView>) -> bool {
        &&& forall|p: Seq<u8>| #[trigger] dedup_keys(program_ids_of(ixs)).contains(p) && !has_address(provided, p) ==> derivable(self.program_cache, p)
        &&& forall|k: Seq<u8>| #[trigger] spec_legacy_message_keys(ixs).contains(k) && !has_address(provided, k)
            && !has_address(self.fallbacks(ixs, provided), k) && self.sysvars.sysvar_account(k) is None
            ==> derivable(self.program_cache, k)
    }

    /// The accounts of a transaction, in the order of the message keys, then
    /// the instructions sysvar when it was not provided.
    pub open spec fn transaction_accounts(&self, ixs: Seq<InstructionView>, provided: Seq<AccountView>) -> Seq<AccountView> {
        spec_legacy_message_keys(ixs).map_values(|k: Seq<u8>| self.resolve(ixs, provided, k)) + if has_address(
            provided,
            INSTRUCTIONS_SYSVAR_ID@,
        ) {
            Seq::empty()
        } else {
            seq![instructions_sysvar_account(ixs)]
        }
    }

    /// Whether minimum balances stay within `u64` for every program and sysvar account.
    pub open spec fn rent_fits(&self) -> bool {
        &&& forall|k: Seq<u8>| #[trigger] self.program_cache.programdata_fits(k)
        &&& forall|k: Seq<u8>| #[trigger] self.sysvars.sysvar_account_fits(k)
    }
}

/// The last account in `accounts` at `pubkey`.
fn find_last_account(accounts: &Vec<Account>, pubkey: &Pubkey) -> (r: Option<usize>)
    ensures
        r matches Some(i) ==> i < accounts@.len() && i == last_index(accounts_view(accounts@), pubkey@),
        r is None <==> !has_address(accounts_view(accounts@), pubkey@),
{
    let ghost s = accounts_view(accounts@);
    let mut i: usize = accounts.len();
    while i > 0
        invariant
            i <= accounts@.len(),
            s == accounts_view(accounts@),
            forall|j: int| i <= j < s.len() ==> s[j].address != pubkey@,
        decreases i,
    {
        i = i - 1;
        if accounts[i].address == *pubkey {
            proof {
                assert(s[i as int].address == pubkey@);
                let c = last_index(s, pubkey@);
                assert(0 <= c < s.len() && s[c].address == pubkey@ && forall|j: int| c < j < s.len() ==> s[j].address != pubkey@);
                if c > i {
                    assert(s[c].address != pubkey@);
                } else if c < i {
                    assert(s[i as int].address != pubkey@);
                }
            }
            return Some(i);
        }
    }
    proof {
        if has_address(s, pubkey@) {
            let j = choose|j: int| 0 <= j < s.len() && s[j].address == pubkey@;
            assert(s[j].address != pubkey@);
        }
    }
    None
}

/// Appends copies of `src` to `dst`.
fn append_accounts(dst: &mut Vec<Account>, src: &Vec<Account>)
    ensures
        accounts_view(final(dst)@) == accounts_view(old(dst)@) + accounts_view(src@),
{
    let mut i: usize = 0;
    while i < src.len()
        invariant
            i <= src@.len(),
            accounts_view(dst@) == accounts_view(old(dst)@) + accounts_view(src@.take(i as int)),
        decreases src@.len() - i,
    {
        let ghost before = dst@;
        dst.push(src[i].duplicate());
        proof {
            assert(accounts_view(src@.take(i + 1)) =~= accounts_view(src@.take(i as int)).push(src@[i as int]@));
            assert(accounts_view(dst@) =~= accounts_view(before).push(src@[i as int]@));
        }
        i = i + 1;
    }
    proof {
        assert(src@.take(src@.len() as int) =~= src@);
    }
}

impl QuasarSvm {
    /// Whether every program and sysvar account's minimum balance fits a `u64`.
    pub fn check_rent_fits(&self) -> (r: bool)
        requires
            self.program_cache.wf(),
        ensures
            r == self.rent_fits(),
    {
        let mut i: usize = 0;
        while i < self.program_cache.entries.len()
            invariant
                self.program_cache.wf(),
                i <= self.program_cache.entries@.len(),
                forall|j: int| 0 <= j < i ==> program_entry_fits(#[trigger] self.program_cache.entries@[j]@),
            decreases self.program_cache.entries@.len() - i,
        {
            let n: usize = match &self.program_cache.entries[i].elf {
                Some(e) => e.len(),
                None => 0,
            };
            if !balance_fits(13, n, crate::rent::DEFAULT_LAMPORTS_PER_BYTE_YEAR) {
                proof {
                    assert(!program_entry_fits(self.program_cache.entries@[i as int]@));
                    lemma_program_fits_entry(self.program_cache, i as int);
                }
                return false;
            }
            i = i + 1;
        }
        proof {
            lemma_all_programs_fit(self.program_cache);
        }
        let keys: [[u8; 32]; 8] = [
            crate::ids::CLOCK_SYSVAR_ID,
            crate::ids::EPOCH_REWARDS_SYSVAR_ID,
            crate::ids::EPOCH_SCHEDULE_SYSVAR_ID,
            crate::ids::LAST_RESTART_SLOT_SYSVAR_ID,
            crate::ids::RENT_SYSVAR_ID,
            crate::ids::SLOT_HASHES_SYSVAR_ID,
            crate::ids::STAKE_HISTORY_SYSVAR_ID,
            crate::ids::RECENT_BLOCKHASHES_SYSVAR_ID,
        ];
        let mut s: usize = 0;
        while s < 8
            invariant
                s <= 8,
                forall|j: int| 0 <= j < s ==> self.sysvars.sysvar_account_fits(#[trigger] keys@[j]@),
            decreases 8 - s,
        {
            let key = Pubkey::new_from_array(keys[s]);
            match self.sysvars.sysvar_data_of(&key) {
                Some(d) => {
                    if !balance_fits(0, d.len(), self.sysvars.rent.lamports_per_byte_year) {
                        proof {
                            assert(!self.sysvars.sysvar_account_fits(key@));
                        }
                        return false;
                    }
                },
                None => {},
            }
            s = s + 1;
        }
        proof {
            assert forall|k: Seq<u8>| #[trigger] self.sysvars.sysvar_account_fits(k) by {
                if self.sysvars.sysvar_data(k) is Some {
                    if k == crate::ids::CLOCK_SYSVAR_ID@ { assert(k == keys@[0]@); }
                    else if k == crate::ids::EPOCH_REWARDS_SYSVAR_ID@ { assert(k == keys@[1]@); }
                    else if k == crate::ids::EPOCH_SCHEDULE_SYSVAR_ID@ { assert(k == keys@[2]@); }
                    else if k == crate::ids::LAST_RESTART_SLOT_SYSVAR_ID@ { assert(k == keys@[3]@); }
                    else if k == crate::ids::RENT_SYSVAR_ID@ { assert(k == keys@[4]@); }
                    else if k == crate::ids::SLOT_HASHES_SYSVAR_ID@ { assert(k == keys@[5]@); }
                    else if k == crate::ids::STAKE_HISTORY_SYSVAR_ID@ { assert(k == keys@[6]@); }
                    else { assert(k == keys@[7]@); }
                }
            }
        }
        true
    }
}

/// Whether `extra + n` fits a `usize` and `(128 + extra + n) * lamports_per_byte_year` a `u64`.
fn balance_fits(extra: usize, n: usize, lamports_per_byte_year: u64) -> (r: bool)
    requires
        extra <= 13,
    ensures
        r == (extra + n <= usize::MAX && minimum_balance_fits(
            crate::rent::Rent { lamports_per_byte_year, exemption_threshold_bits: 0, burn_percent: 0 },
            (extra + n) as usize,
        )),
{
    if n > usize::MAX - extra {
        return false;
    }
    let m: usize = extra + n;
    if lamports_per_byte_year == 0 {
        proof {
            assert((128 + m) * lamports_per_byte_year == 0) by (nonlinear_arith)
                requires lamports_per_byte_year == 0;
        }
        return true;
    }
    let total: u64 = match (128u64 + extra as u64).checked_add(n as u64) {
        Some(t) => t,
        None => {
            proof {
                assert((128 + m) * lamports_per_byte_year > u64::MAX) by (nonlinear_arith)
                    requires 128 + m > u64::MAX, lamports_per_byte_year >= 1;
            }
            return false;
        },
    };
    proof {
        assert(total == 128 + m);
    }
    match total.checked_mul(lamports_per_byte_year) {
        Some(_) => true,
        None => false,
    }
}

/// Whether the program-data account of a registered program has a length and
/// a minimum balance that fit under the default rent.
pub open spec fn program_entry_fits(e: crate::program_cache::ProgramEntryView) -> bool {
    let n = 13 + match e.elf {
        Some(elf) => elf.len() as int,
        None => 0int,
    };
    n <= usize::MAX && minimum_balance_fits(crate::rent::Rent::default_rent_spec(), n as usize)
}

proof fn lemma_program_fits_entry(cache: ProgramCache, i: int)
    requires
        cache.wf(),
        0 <= i < cache.entries@.len(),
        !program_entry_fits(cache.entries@[i]@),
    ensures
        !(forall|k: Seq<u8>| #[trigger] cache.programdata_fits(k)),
{
    let k = cache.entries@[i].program_id@;
    let c = choose|c: int| 0 <= c < cache.entries@.len() && cache.entries@[c].program_id@ == k;
    if c != i {
        if c < i {
            assert(cache.entries@[c].program_id@ != cache.entries@[i].program_id@);
        } else {
            assert(cache.entries@[i].program_id@ != cache.entries@[c].program_id@);
        }
    }
    assert(!cache.programdata_fits(k));
}

proof fn lemma_all_programs_fit(cache: ProgramCache)
    requires
        cache.wf(),
        forall|j: int| 0 <= j < cache.entries@.len() ==> program_entry_fits(#[trigger] cache.entries@[j]@),
    ensures
        forall|k: Seq<u8>| #[trigger] cache.programdata_fits(k),
{
    assert forall|k: Seq<u8>| #[trigger] cache.programdata_fits(k) by {
        if exists|i: int| 0 <= i < cache.entries@.len() && cache.entries@[i].program_id@ == k {
            let c = choose|c: int| 0 <= c < cache.entries@.len() && cache.entries@[c].program_id@ == k;
            assert(program_entry_fits(cache.entries@[c]@));
        }
    }
}


// ---------------------------------------------------------------------------
// Preparing an execution
// ---------------------------------------------------------------------------

/// Whether an account is not at any address of `explicit`.
pub open spec fn not_passed(explicit: Seq<AccountView>) -> spec_fn(AccountView) -> bool {
    |a: AccountView| !has_address(explicit, a.address)
}

/// The stored accounts (those not passed explicitly), then the explicit ones.
pub open spec fn merged_accounts(store: Seq<AccountView>, explicit: Seq<AccountView>) -> Seq<AccountView> {
    store.filter(not_passed(explicit)) + explicit
}

/// An account at `k` with none before it is the first one there.
proof fn lemma_first_index_is(s: Seq<AccountView>, k: Seq<u8>, j: int)
    requires
        0 <= j < s.len(),
        s[j].address == k,
        forall|m: int| 0 <= m < j ==> s[m].address != k,
    ensures
        has_address(s, k),
        first_index(s, k) == j,
        first_account(s, k) == Some(s[j]),
{
    let c = first_index(s, k);
    assert(0 <= c < s.len() && s[c].address == k && forall|m: int| 0 <= m < c ==> s[m].address != k);
    if c < j {
        assert(s[c].address != k);
    } else if c > j {
        assert(s[j].address != k);
    }
}

/// The first account at `k` after appending `x`.
proof fn lemma_first_account_push(s: Seq<AccountView>, x: AccountView, k: Seq<u8>)
    ensures
        first_account(s.push(x), k) == if has_address(s, k) {
            first_account(s, k)
        } else if x.address == k {
            Some(x)
        } else {
            None::<AccountView>
        },
{
    let t = s.push(x);
    if has_address(s, k) {
        let w = choose|w: int| 0 <= w < s.len() && s[w].address == k;
        assert(exists|i: int| 0 <= i < s.len() && s[i].address == k && forall|m: int| 0 <= m < i ==> s[m].address != k) by {
            lemma_first_exists(s, k, w);
        }
        let j = first_index(s, k);
        assert(0 <= j < s.len() && s[j].address == k && forall|m: int| 0 <= m < j ==> s[m].address != k);
        assert(forall|m: int| 0 <= m < j ==> t[m] == s[m]);
        lemma_first_index_is(t, k, j);
    } else if x.address == k {
        let n = s.len() as int;
        assert(forall|m: int| 0 <= m < n ==> t[m] == s[m]);
        assert forall|m: int| 0 <= m < n implies t[m].address != k by {
            if t[m].address == k {
                assert(s[m].address == k);
            }
        }
        lemma_first_index_is(t, k, n);
    } else {
        if has_address(t, k) {
            let w = choose|w: int| 0 <= w < t.len() && t[w].address == k;
            assert(s[w].address == k);
        }
    }
}

/// When some account is at `k`, there is a first one.
proof fn lemma_first_exists(s: Seq<AccountView>, k: Seq<u8>, j: int)
    requires
        0 <= j < s.len(),
        s[j].address == k,
    ensures
        exists|i: int| 0 <= i < s.len() && s[i].address == k && forall|m: int| 0 <= m < i ==> s[m].address != k,
    decreases j,
{
    if exists|m: int| 0 <= m < j && s[m].address == k {
        let m = choose|m: int| 0 <= m < j && s[m].address == k;
        lemma_first_exists(s, k, m);
    } else {
        assert(forall|m: int| 0 <= m < j ==> s[m].address != k);
    }
}

/// The first account at `k` in `a + b`: the one in `a`, else the one in `b`.
proof fn lemma_first_account_append(a: Seq<AccountView>, b: Seq<AccountView>, k: Seq<u8>)
    ensures
        first_account(a + b, k) == if has_address(a, k) {
            first_account(a, k)
        } else {
            first_account(b, k)
        },
    decreases b.len(),
{
    if b.len() == 0 {
        assert(a + b =~= a);
    } else {
        let init = b.drop_last();
        let x = b.last();
        lemma_first_account_append(a, init, k);
        assert(a + b =~= (a + init).push(x));
        assert(init.push(x) =~= b);
        lemma_first_account_push(a + init, x, k);
        lemma_first_account_push(init, x, k);
    }
}

/// Leaving out the accounts passed explicitly: an explicit address is no
/// longer held, and any other address holds what it held.
proof fn lemma_first_account_filter(s: Seq<AccountView>, ex: Seq<AccountView>, k: Seq<u8>)
    ensures
        first_account(s.filter(not_passed(ex)), k) == if has_address(ex, k) {
            None::<AccountView>
        } else {
            first_account(s, k)
        },
    decreases s.len(),
{
    reveal(Seq::filter);
    let p = not_passed(ex);
    if s.len() == 0 {
        assert(s.filter(p) =~= Seq::<AccountView>::empty());
    } else {
        let init = s.drop_last();
        let x = s.last();
        lemma_first_account_filter(init, ex, k);
        assert(init.push(x) =~= s);
        lemma_first_account_push(init, x, k);
        if p(x) {
            assert(s.filter(p) == init.filter(p).push(x));
            lemma_first_account_push(init.filter(p), x, k);
        } else {
            assert(s.filter(p) == init.filter(p));
        }
    }
}

/// Explicitly passed accounts take priority over stored ones: in the merged
/// list an address passed explicitly holds the (first) explicit account at
/// it, and every other address holds what the store holds there.
pub proof fn law_merge_priority(store: Seq<AccountView>, explicit: Seq<AccountView>, k: Seq<u8>)
    ensures
        first_account(merged_accounts(store, explicit), k) == if has_address(explicit, k) {
            first_account(explicit, k)
        } else {
            first_account(store, k)
        },
{
    let f = store.filter(not_passed(explicit));
    lemma_first_account_filter(store, explicit, k);
    lemma_first_account_append(f, explicit, k);
}

/// What an execution works on: the merged accounts, the message keys, and
/// the accounts in the order the transaction sees them.
pub struct PreparedExecution {
    pub merged: Vec<Account>,
    pub account_keys: Vec<Pubkey>,
    pub transaction_accounts: Vec<Account>,
}

impl QuasarSvm {
    /// The stored accounts not passed explicitly, then the explicit ones:
    /// explicit accounts take priority over stored ones.
    pub fn merge_accounts(&self, explicit: &Vec<Account>) -> (r: Vec<Account>)
        ensures
            accounts_view(r@) == merged_accounts(self.store(), accounts_view(explicit@)),
    {
        let ghost st = self.store();
        let ghost ex = accounts_view(explicit@);
        let mut merged: Vec<Account> = Vec::new();
        let mut i: usize = 0;
        while i < self.accounts.len()
            invariant
                i <= self.accounts@.len(),
                st == accounts_view(self.accounts@),
                ex == accounts_view(explicit@),
                accounts_view(merged@) == st.take(i as int).filter(not_passed(ex)),
            decreases self.accounts@.len() - i,
        {
            proof {
                reveal(Seq::filter);
                assert(st.take(i + 1).drop_last() =~= st.take(i as int));
                assert(st.take(i + 1).last() == self.accounts@[i as int]@);
                assert(st.take(i + 1).filter(not_passed(ex)) == if not_passed(ex)(self.accounts@[i as int]@) {
                    st.take(i as int).filter(not_passed(ex)).push(self.accounts@[i as int]@)
                } else {
                    st.take(i as int).filter(not_passed(ex))
                });
            }
            let ghost before = merged@;
            match find_account(explicit, &self.accounts[i].address) {
                Some(_) => {},
                None => {
                    merged.push(self.accounts[i].duplicate());
                    proof {
                        assert(accounts_view(merged@) =~= accounts_view(before).push(self.accounts@[i as int]@));
                    }
                },
            }
            i = i + 1;
        }
        proof {
            assert(st.take(self.accounts@.len() as int) =~= st);
        }
        append_accounts(&mut merged, explicit);
        merged
    }

    /// The accounts standing for the top-level program `pid`: none when it
    /// was provided; else its accounts, or a stub when it has none; `None`
    /// when its program-data address cannot be derived.
    fn program_fallback_for(&self, pid: &Pubkey, provided: &Vec<Account>) -> (r: Option<Vec<Account>>)
        requires
            self.wf(),
            self.rent_fits(),
        ensures
            r is None <==> (!has_address(accounts_view(provided@), pid@) && !derivable(self.program_cache, pid@)),
            r matches Some(v) ==> accounts_view(v@) == self.program_fallback_of(pid@, accounts_view(provided@)),
    {
        match find_account(provided, pid) {
            Some(_) => Some(Vec::new()),
            None => match self.program_cache.try_create_program_accounts(pid) {
                None => None,
                Some(accs) => {
                    if accs.len() == 0 {
                        let v = vec![Account {
                            address: *pid,
                            lamports: 0,
                            data: Vec::new(),
                            owner: Pubkey::new_from_array(SYSTEM_PROGRAM_ID),
                            executable: true,
                        }];
                        proof {
                            assert(accounts_view(v@) =~= seq![program_stub(pid@)]);
                        }
                        Some(v)
                    } else {
                        Some(accs)
                    }
                },
            },
        }
    }

    /// The account the transaction sees at `key`, given the fallbacks; `None`
    /// when it falls to the program accounts of an upgradeable program whose
    /// program-data address cannot be derived.
    fn resolve_key(
        &self,
        ixs: Ghost<Seq<InstructionView>>,
        provided: &Vec<Account>,
        fallbacks: &Vec<Account>,
        key: &Pubkey,
    ) -> (r: Option<Account>)
        requires
            self.wf(),
            self.rent_fits(),
            accounts_view(fallbacks@) == self.fallbacks(ixs@, accounts_view(provided@)),
        ensures
            r is None <==> (!has_address(accounts_view(provided@), key@) && !has_address(accounts_view(fallbacks@), key@)
                && self.sysvars.sysvar_account(key@) is None && !derivable(self.program_cache, key@)),
            r matches Some(a) ==> a@ == self.resolve(ixs@, accounts_view(provided@), key@),
    {
        match find_account(provided, key) {
            Some(j) => Some(provided[j].duplicate()),
            None => match find_last_account(fallbacks, key) {
                Some(j) => Some(fallbacks[j].duplicate()),
                None => match self.sysvars.maybe_create_sysvar_account(key) {
                    Some(a) => Some(a),
                    None => match self.program_cache.try_create_program_accounts(key) {
                        None => None,
                        Some(pa) => match find_account(&pa, key) {
                            Some(j) => Some(pa[j].duplicate()),
                            None => Some(Account {
                                address: *key,
                                lamports: 0,
                                data: Vec::new(),
                                owner: Pubkey::new_from_array(SYSTEM_PROGRAM_ID),
                                executable: false,
                            }),
                        },
                    },
                },
            },
        }
    }

    /// The accounts a transaction sees, in the order of the message keys,
    /// then the instructions sysvar when it was not provided; `None` when the
    /// program-data address of a needed upgradeable program cannot be derived.
    pub fn compile_accounts(&self, instructions: &Vec<Instruction>, provided: &Vec<Account>) -> (r: Option<Vec<Account>>)
        requires
            self.wf(),
            self.rent_fits(),
            legacy_message_fits(instructions_view(instructions@)),
        ensures
            r is Some <==> self.accounts_derivable(instructions_view(instructions@), accounts_view(provided@)),
            r matches Some(v) ==> accounts_view(v@) == self.transaction_accounts(
                instructions_view(instructions@),
                accounts_view(provided@),
            ),
    {
        let ghost ixs = instructions_view(instructions@);
        let ghost pv = accounts_view(provided@);
        let pids = collect_program_ids(instructions);
        let ghost pidv = keys_view(pids@);
        let mut fallbacks: Vec<Account> = Vec::new();
        let mut i: usize = 0;
        while i < pids.len()
            invariant
                self.wf(),
                self.rent_fits(),
                i <= pids@.len(),
                ixs == instructions_view(instructions@),
                pidv == keys_view(pids@),
                pidv == dedup_keys(program_ids_of(ixs)),
                pv == accounts_view(provided@),
                accounts_view(fallbacks@) == self.program_fallbacks(pidv.take(i as int), pv),
                forall|j: int| 0 <= j < i && !has_address(pv, #[trigger] pidv[j]) ==> derivable(self.program_cache, pidv[j]),
            decreases pids@.len() - i,
        {
            let pid = &pids[i];
            proof {
                assert(pidv.take(i + 1).drop_last() =~= pidv.take(i as int));
                assert(pidv.take(i + 1).last() == pid@);
                assert(pidv[i as int] == pid@);
            }
            match self.program_fallback_for(pid, provided) {
                None => {
                    proof {
                        assert(pidv.contains(pid@));
                        assert(dedup_keys(program_ids_of(ixs)).contains(pid@));
                        assert(!self.accounts_derivable(ixs, pv));
                    }
                    return None;
                },
                Some(accs) => {
                    append_accounts(&mut fallbacks, &accs);
                },
            }
            i = i + 1;
        }
        proof {
            assert(pidv.take(pids@.len() as int) =~= pidv);
        }
        let ix_sysvar = crate::message::maybe_build_instructions_sysvar(instructions, provided);
        match &ix_sysvar {
            Some(a) => {
                let ghost before = fallbacks@;
                fallbacks.push(a.duplicate());
                proof {
                    assert(accounts_view(fallbacks@) =~= accounts_view(before).push(a@));
                }
            },
            None => {},
        }
        let ghost fb = self.fallbacks(ixs, pv);
        proof {
            assert(has_address(pv, INSTRUCTIONS_SYSVAR_ID@) == crate::message::has_account(pv, INSTRUCTIONS_SYSVAR_ID@));
            assert(accounts_view(fallbacks@) =~= fb);
        }
        let keys = legacy_message_keys(instructions);
        let ghost kv = keys_view(keys@);
        let mut result: Vec<Account> = Vec::new();
        let mut t: usize = 0;
        while t < keys.len()
            invariant
                self.wf(),
                self.rent_fits(),
                t <= keys@.len(),
                ixs == instructions_view(instructions@),
                kv == keys_view(keys@),
                kv == spec_legacy_message_keys(ixs),
                pv == accounts_view(provided@),
                fb == accounts_view(fallbacks@),
                fb == self.fallbacks(ixs, pv),
                accounts_view(result@) == kv.take(t as int).map_values(|k: Seq<u8>| self.resolve(ixs, pv, k)),
                forall|j: int| 0 <= j < t && !has_address(pv, #[trigger] kv[j]) && !has_address(fb, kv[j])
                    && self.sysvars.sysvar_account(kv[j]) is None ==> derivable(self.program_cache, kv[j]),
            decreases keys@.len() - t,
        {
            let key = &keys[t];
            proof {
                assert(kv[t as int] == key@);
            }
            let acct = match self.resolve_key(Ghost(ixs), provided, &fallbacks, key) {
                Some(a) => a,
                None => {
                    proof {
                        assert(kv.contains(key@));
                        assert(spec_legacy_message_keys(ixs).contains(key@));
                        assert(!self.accounts_derivable(ixs, pv));
                    }
                    return None;
                },
            };
            proof {
                assert(kv.take(t + 1).map_values(|k: Seq<u8>| self.resolve(ixs, pv, k)) =~= kv.take(t as int).map_values(
                    |k: Seq<u8>| self.resolve(ixs, pv, k),
                ).push(self.resolve(ixs, pv, key@)));
            }
            let ghost before = result@;
            result.push(acct);
            proof {
                assert(accounts_view(result@) =~= accounts_view(before).push(acct@));
            }
            t = t + 1;
        }
        proof {
            assert(kv.take(keys@.len() as int) =~= kv);
        }
        match ix_sysvar {
            Some(a) => {
                let ghost before = result@;
                result.push(a);
                proof {
                    assert(accounts_view(result@) =~= accounts_view(before).push(a@));
                }
            },
            None => {},
        }
        proof {
            assert(accounts_view(result@) =~= self.transaction_accounts(ixs, pv));
            assert forall|p: Seq<u8>| #[trigger] dedup_keys(program_ids_of(ixs)).contains(p) && !has_address(pv, p) implies derivable(self.program_cache, p) by {
                let j = choose|j: int| 0 <= j < pidv.len() && pidv[j] == p;
            }
            assert forall|k: Seq<u8>| #[trigger] spec_legacy_message_keys(ixs).contains(k) && !has_address(pv, k)
                && !has_address(fb, k) && self.sysvars.sysvar_account(k) is None implies derivable(self.program_cache, k) by {
                let j = choose|j: int| 0 <= j < kv.len() && kv[j] == k;
            }
        }
        Some(result)
    }

    /// Prepares an execution: the merged accounts, the message keys and the
    /// accounts the transaction sees; `None` when the program-data address of
    /// a needed upgradeable program cannot be derived.
    pub fn prepare_execution(&self, instructions: &Vec<Instruction>, accounts: &Vec<Account>) -> (r: Option<PreparedExecution>)
        requires
            self.wf(),
            self.rent_fits(),
            legacy_message_fits(instructions_view(instructions@)),
        ensures
            r is Some <==> self.accounts_derivable(
                instructions_view(instructions@),
                merged_accounts(self.store(), accounts_view(accounts@)),
            ),
            r matches Some(p) ==> {
                &&& accounts_view(p.merged@) == merged_accounts(self.store(), accounts_view(accounts@))
                &&& keys_view(p.account_keys@) == spec_legacy_message_keys(instructions_view(instructions@))
                &&& accounts_view(p.transaction_accounts@) == self.transaction_accounts(
                    instructions_view(instructions@),
                    merged_accounts(self.store(), accounts_view(accounts@)),
                )
            },
    {
        let merged = self.merge_accounts(accounts);
        let transaction_accounts = match self.compile_accounts(instructions, &merged) {
            Some(v) => v,
            None => {
                return None;
            },
        };
        let account_keys = legacy_message_keys(instructions);
        Some(PreparedExecution { merged, account_keys, transaction_accounts })
    }
}

// ---------------------------------------------------------------------------
// After an execution
// ---------------------------------------------------------------------------

/// Each account of `original`, replaced by the account at its address in
/// `after` (the first) when there is one.
pub open spec fn resulting_accounts(original: Seq<AccountView>, after: Seq<AccountView>) -> Seq<AccountView> {
    original.map_values(
        |a: AccountView| if has_address(after, a.address) {
            after[first_index(after, a.address)]
        } else {
            a
        },
    )
}

/// `a` as it stands in `after`: the first account there at its address, or
/// `a` itself.
fn result_account_for(a: &Account, after: &Vec<Account>) -> (r: Account)
    ensures
        r@ == if has_address(accounts_view(after@), a.address@) {
            accounts_view(after@)[first_index(accounts_view(after@), a.address@)]
        } else {
            a@
        },
{
    match find_account(after, &a.address) {
        Some(j) => after[j].duplicate(),
        None => a.duplicate(),
    }
}

/// Each account of `original` as it stands in `after`, the transaction's
/// accounts after the execution.
pub fn deconstruct_resulting_accounts(original: &Vec<Account>, after: &Vec<Account>) -> (r: Vec<Account>)
    ensures
        accounts_view(r@) == resulting_accounts(accounts_view(original@), accounts_view(after@)),
{
    let ghost ov = accounts_view(original@);
    let ghost av = accounts_view(after@);
    let mut r: Vec<Account> = Vec::new();
    let mut i: usize = 0;
    while i < original.len()
        invariant
            i <= original@.len(),
            ov == accounts_view(original@),
            av == accounts_view(after@),
            accounts_view(r@) == resulting_accounts(ov.take(i as int), av),
        decreases original@.len() - i,
    {
        let a = result_account_for(&original[i], after);
        let ghost before = r@;
        r.push(a);
        proof {
            assert(ov[i as int] == original@[i as int]@);
            assert(ov.take(i + 1) =~= ov.take(i as int).push(ov[i as int]));
            assert(resulting_accounts(ov.take(i + 1), av) =~= resulting_accounts(ov.take(i as int), av).push(a@));
            assert(accounts_view(r@) =~= accounts_view(before).push(a@));
        }
        i = i + 1;
    }
    proof {
        assert(ov.take(original@.len() as int) =~= ov);
    }
    r
}

/// What the store holds at `k` after writing the accounts of `t` in order
/// over a store that held `before` there.
pub open spec fn committed(t: Seq<AccountView>, k: Seq<u8>, before: Option<AccountView>) -> Option<AccountView> {
    if has_address(t, k) {
        Some(t[last_index(t, k)])
    } else {
        before
    }
}

/// Writing one more account: its address now holds it, others are as they were.
proof fn lemma_committed_push(t: Seq<AccountView>, a: AccountView, k: Seq<u8>, before: Option<AccountView>)
    ensures
        committed(t.push(a), k, before) == if k == a.address {
            Some(a)
        } else {
            committed(t, k, before)
        },
{
    if k == a.address {
        lemma_last_is_at(t.push(a), k, t.len() as int);
    } else {
        lemma_last_after_push(t, a, k);
    }
}

impl QuasarSvm {
    /// Stores each of `resulting`, in order (see `law_commit_stored`: each
    /// address ends up with the last account given for it).
    pub fn commit_accounts(&mut self, resulting: &Vec<Account>)
        requires
            old(self).wf(),
        ensures
            final(self).wf(),
            final(self).store() == upsert_all(old(self).store(), accounts_view(resulting@)),
            final(self).sysvars == old(self).sysvars,
            final(self).program_cache == old(self).program_cache,
    {
        let ghost rv = accounts_view(resulting@);
        let mut i: usize = 0;
        while i < resulting.len()
            invariant
                self.wf(),
                i <= resulting@.len(),
                rv == accounts_view(resulting@),
                self.sysvars == old(self).sysvars,
                self.program_cache == old(self).program_cache,
                self.store() == upsert_all(old(self).store(), rv.take(i as int)),
            decreases resulting@.len() - i,
        {
            let a = resulting[i].duplicate();
            self.set_account(a);
            proof {
                assert(rv.take(i + 1).drop_last() =~= rv.take(i as int));
                assert(rv.take(i + 1).last() == a@);
            }
            i = i + 1;
        }
        proof {
            assert(rv.take(resulting@.len() as int) =~= rv);
        }
    }
}

/// Writing accounts in order keeps addresses distinct, and each address then
/// holds the last account written for it (or what it held before).
pub proof fn law_commit_stored(s: Seq<AccountView>, t: Seq<AccountView>, k: Seq<u8>)
    requires
        addresses_distinct(s),
    ensures
        addresses_distinct(upsert_all(s, t)),
        first_account(upsert_all(s, t), k) == committed(t, k, first_account(s, k)),
    decreases t.len(),
{
    if t.len() > 0 {
        let init = t.drop_last();
        let a = t.last();
        law_commit_stored(s, init, k);
        law_commit_stored(s, init, a.address);
        let u = upsert_all(s, init);
        law_write_then_read(u, a, k);
        assert(init.push(a) =~= t);
        lemma_committed_push(init, a, k, first_account(s, k));
    }
}

/// A read after a write gives back what was written: writing one account
/// into a store of distinct addresses keeps them distinct, its address then
/// holds it, and every other address holds what it held before.
pub proof fn law_write_then_read(s: Seq<AccountView>, a: AccountView, k: Seq<u8>)
    requires
        addresses_distinct(s),
    ensures
        addresses_distinct(upsert_seq(s, a)),
        first_account(upsert_seq(s, a), k) == if k == a.address {
            Some(a)
        } else {
            first_account(s, k)
        },
{
    let u = upsert_seq(s, a);
    if has_address(s, a.address) {
        let j = choose|j: int| 0 <= j < s.len() && s[j].address == a.address;
        lemma_first_is_only(s, a.address, j);
        assert forall|x: int, y: int| 0 <= x < y < u.len() implies #[trigger] u[x].address != #[trigger] u[y].address by {
            assert(s[x].address != s[y].address);
        }
        lemma_first_is_only(u, a.address, j);
        if k != a.address {
            if has_address(s, k) {
                let m = choose|m: int| 0 <= m < s.len() && s[m].address == k;
                lemma_first_is_only(s, k, m);
                lemma_first_is_only(u, k, m);
            } else if has_address(u, k) {
                let m = choose|m: int| 0 <= m < u.len() && u[m].address == k;
                assert(s[m].address == k);
            }
        }
    } else {
        let n = s.len() as int;
        assert forall|x: int, y: int| 0 <= x < y < u.len() implies #[trigger] u[x].address != #[trigger] u[y].address by {
            if y == n {
                assert(s[x].address != a.address);
            } else {
                assert(s[x].address != s[y].address);
            }
        }
        lemma_first_is_only(u, a.address, n);
        if k != a.address {
            if has_address(s, k) {
                let m = choose|m: int| 0 <= m < s.len() && s[m].address == k;
                lemma_first_is_only(s, k, m);
                lemma_first_is_only(u, k, m);
            } else if has_address(u, k) {
                let m = choose|m: int| 0 <= m < u.len() && u[m].address == k;
                assert(m < n);
                assert(s[m].address == k);
            }
        }
    }
}

/// The last entry of a list is the last account at its address.
proof fn lemma_last_is_at(s: Seq<AccountView>, k: Seq<u8>, i: int)
    requires
        i == s.len() - 1,
        0 <= i,
        s[i].address == k,
    ensures
        has_address(s, k),
        last_index(s, k) == i,
{
    let c = last_index(s, k);
    assert(0 <= i < s.len() && s[i].address == k && forall|j: int| i < j < s.len() ==> s[j].address != k);
    if c < i {
        assert(s[i].address != k);
    }
}

/// Appending an account at another address leaves the last account at `k` as it was.
proof fn lemma_last_after_push(s: Seq<AccountView>, a: AccountView, k: Seq<u8>)
    requires
        a.address != k,
    ensures
        has_address(s.push(a), k) == has_address(s, k),
        has_address(s, k) ==> s.push(a)[last_index(s.push(a), k)] == s[last_index(s, k)],
{
    let t = s.push(a);
    if has_address(s, k) {
        let j = choose|j: int| 0 <= j < s.len() && s[j].address == k;
        assert(t[j].address == k);
        let c = last_index(s, k);
        assert(exists|i: int| 0 <= i < s.len() && s[i].address == k && forall|j: int| i < j < s.len() ==> s[j].address != k) by {
            lemma_last_exists(s, k, j);
        }
        let d = last_index(t, k);
        assert(0 <= c < s.len() && s[c].address == k && forall|j: int| c < j < s.len() ==> s[j].address != k);
        assert(0 <= c < t.len() && t[c].address == k && forall|j: int| c < j < t.len() ==> t[j].address != k);
        assert(0 <= d < t.len() && t[d].address == k && forall|j: int| d < j < t.len() ==> t[j].address != k);
        if d < c {
            assert(t[c].address != k);
        } else if d > c {
            assert(d < s.len());
            assert(s[d].address != k);
        }
    }
    if has_address(t, k) {
        let j = choose|j: int| 0 <= j < t.len() && t[j].address == k;
        assert(j < s.len());
        assert(s[j].address == k);
    }
}

/// When some account is at `k`, there is a last one.
proof fn lemma_last_exists(s: Seq<AccountView>, k: Seq<u8>, j: int)
    requires
        0 <= j < s.len(),
        s[j].address == k,
    ensures
        exists|i: int| 0 <= i < s.len() && s[i].address == k && forall|m: int| i < m < s.len() ==> s[m].address != k,
    decreases s.len() - j,
{
    if exists|m: int| j < m < s.len() && s[m].address == k {
        let m = choose|m: int| j < m < s.len() && s[m].address == k;
        lemma_last_exists(s, k, m);
    } else {
        assert(forall|m: int| j < m < s.len() ==> s[m].address != k);
    }
}


// ---------------------------------------------------------------------------
// Execution trace
// ---------------------------------------------------------------------------

/// One frame of the runtime's instruction trace: how deep the invocation was,
/// the transaction index of its program account, and those of its accounts.
pub struct TraceFrame {
    pub nesting_level: usize,
    pub program_account_index: usize,
    pub instruction_accounts: Vec<usize>,
}

/// The mathematical value of a [`TraceFrame`].
pub struct TraceFrameView {
    pub nesting_level: usize,
    pub program_account_index: usize,
    pub instruction_accounts: Seq<usize>,
}

impl View for TraceFrame {
    type V = TraceFrameView;

    open spec fn view(&self) -> TraceFrameView {
        TraceFrameView {
            nesting_level: self.nesting_level,
            program_account_index: self.program_account_index,
            instruction_accounts: self.instruction_accounts@,
        }
    }
}

/// The views of a list of frames.
pub open spec fn frames_view(v: Seq<TraceFrame>) -> Seq<TraceFrameView> {
    v.map_values(|f: TraceFrame| f@)
}

/// The invocation that frame `i` of `frames` stands for: its depth (low
/// eight bits), its program (the all-zero address when the index is past the
/// keys), and whether it succeeded: all did when the execution succeeded,
/// else all but the last.
pub open spec fn executed_instruction(frames: Seq<TraceFrameView>, keys: Seq<Seq<u8>>, ok: bool, i: int) -> ExecutedInstructionView {
    let idx = frames[i].program_account_index as int;
    ExecutedInstructionView {
        nesting_level: frames[i].nesting_level as u8,
        program_id: if idx < keys.len() {
            keys[idx]
        } else {
            crate::ids::SYSTEM_PROGRAM_ID@
        },
        succeeded: ok || i < frames.len() - 1,
    }
}

/// The nested invocation a frame stands for, by account index (low eight bits).
pub open spec fn inner_instruction(f: TraceFrameView) -> InnerInstructionView {
    InnerInstructionView {
        program_id_index: f.program_account_index as u8,
        accounts: f.instruction_accounts.map_values(|x: usize| x as u8),
        data: Seq::empty(),
    }
}

/// The grouping of nested invocations under top-level ones, partway through
/// the frames: the finished groups, the current top-level index, and the
/// nested invocations gathered since.
pub struct GroupingState {
    pub groups: Seq<InnerInstructionsView>,
    pub current: Option<u8>,
    pub pending: Seq<InnerInstructionView>,
}

/// The grouping after the first `n` frames. A top-level frame closes the
/// current group (kept when it has nested invocations) and opens its own;
/// a nested frame joins the pending ones.
pub open spec fn grouping(frames: Seq<TraceFrameView>, n: nat) -> GroupingState
    decreases n,
{
    if n == 0 {
        GroupingState { groups: Seq::empty(), current: None, pending: Seq::empty() }
    } else {
        let st = grouping(frames, (n - 1) as nat);
        let f = frames[n - 1];
        if f.nesting_level == 0 {
            match st.current {
                Some(t) => GroupingState {
                    groups: if st.pending.len() > 0 {
                        st.groups.push(InnerInstructionsView { index: t, instructions: st.pending })
                    } else {
                        st.groups
                    },
                    current: Some((n - 1) as u8),
                    pending: Seq::empty(),
                },
                None => GroupingState { groups: st.groups, current: Some((n - 1) as u8), pending: st.pending },
            }
        } else {
            GroupingState { groups: st.groups, current: st.current, pending: st.pending.push(inner_instruction(f)) }
        }
    }
}

/// The nested invocations grouped under the top-level instruction they ran in.
pub open spec fn inner_instruction_groups(frames: Seq<TraceFrameView>) -> Seq<InnerInstructionsView> {
    let st = grouping(frames, frames.len());
    match st.current {
        Some(t) => if st.pending.len() > 0 {
            st.groups.push(InnerInstructionsView { index: t, instructions: st.pending })
        } else {
            st.groups
        },
        None => st.groups,
    }
}

/// The views of a list of groups.
pub open spec fn groups_view(v: Seq<InnerInstructions>) -> Seq<InnerInstructionsView> {
    v.map_values(|g: InnerInstructions| g@)
}

/// The views of a list of executed instructions.
pub open spec fn executed_view(v: Seq<ExecutedInstruction>) -> Seq<ExecutedInstructionView> {
    v.map_values(|e: ExecutedInstruction| e@)
}

/// The nested invocation a frame stands for.
fn frame_inner_instruction(f: &TraceFrame) -> (r: InnerInstruction)
    ensures
        r@ == inner_instruction(f@),
{
    let mut accounts: Vec<u8> = Vec::new();
    let mut j: usize = 0;
    while j < f.instruction_accounts.len()
        invariant
            j <= f.instruction_accounts@.len(),
            accounts@ == f.instruction_accounts@.take(j as int).map_values(|x: usize| x as u8),
        decreases f.instruction_accounts@.len() - j,
    {
        accounts.push(f.instruction_accounts[j] as u8);
        proof {
            assert(accounts@ =~= f.instruction_accounts@.take(j + 1).map_values(|x: usize| x as u8));
        }
        j = j + 1;
    }
    proof {
        assert(f.instruction_accounts@.take(f.instruction_accounts@.len() as int) =~= f.instruction_accounts@);
    }
    InnerInstruction { program_id_index: f.program_account_index as u8, accounts, data: Vec::new() }
}

/// Moves the pending nested invocations into a new vector.
fn take_pending(pending: &mut Vec<InnerInstruction>) -> (r: Vec<InnerInstruction>)
    ensures
        r@ == old(pending)@,
        final(pending)@ == Seq::<InnerInstruction>::empty(),
{
    let mut out: Vec<InnerInstruction> = Vec::new();
    std::mem::swap(&mut out, pending);
    out
}

/// The execution trace and the nested invocations grouped by top-level
/// instruction, from the runtime's frames and the message keys.
pub fn extract_execution_trace(frames: &Vec<TraceFrame>, account_keys: &Vec<Pubkey>, succeeded: bool) -> (r: (Vec<InnerInstructions>, ExecutionTrace))
    ensures
        groups_view(r.0@) == inner_instruction_groups(frames_view(frames@)),
        r.1.instructions@.len() == frames@.len(),
        forall|i: int| 0 <= i < frames@.len() ==> (#[trigger] r.1.instructions@[i])@ == executed_instruction(
            frames_view(frames@),
            keys_view(account_keys@),
            succeeded,
            i,
        ),
{
    let ghost fv = frames_view(frames@);
    let ghost kv = keys_view(account_keys@);
    let n = frames.len();
    let mut executed: Vec<ExecutedInstruction> = Vec::new();
    let mut i: usize = 0;
    while i < n
        invariant
            n == frames@.len(),
            i <= n,
            fv == frames_view(frames@),
            kv == keys_view(account_keys@),
            executed@.len() == i,
            forall|j: int| 0 <= j < i ==> (#[trigger] executed@[j])@ == executed_instruction(fv, kv, succeeded, j),
        decreases n - i,
    {
        let f = &frames[i];
        let idx = f.program_account_index;
        let program_id = if idx < account_keys.len() {
            account_keys[idx]
        } else {
            Pubkey::new_from_array(SYSTEM_PROGRAM_ID)
        };
        let e = ExecutedInstruction {
            nesting_level: f.nesting_level as u8,
            program_id,
            succeeded: succeeded || i < n - 1,
        };
        proof {
            assert(fv[i as int] == f@);
        }
        executed.push(e);
        i = i + 1;
    }
    let mut groups: Vec<InnerInstructions> = Vec::new();
    let mut current: Option<u8> = None;
    let mut pending: Vec<InnerInstruction> = Vec::new();
    let mut k: usize = 0;
    while k < n
        invariant
            n == frames@.len(),
            k <= n,
            fv == frames_view(frames@),
            groups_view(groups@) == grouping(fv, k as nat).groups,
            current == grouping(fv, k as nat).current,
            pending@.map_values(|x: InnerInstruction| x@) == grouping(fv, k as nat).pending,
        decreases n - k,
    {
        let f = &frames[k];
        proof {
            assert(fv[k as int] == f@);
        }
        if f.nesting_level == 0 {
            match current {
                Some(t) => {
                    if pending.len() > 0 {
                        let ghost gb = groups@;
                        let ghost pb = pending@;
                        let taken = take_pending(&mut pending);
                        groups.push(InnerInstructions { index: t, instructions: taken });
                        proof {
                            assert(groups_view(groups@) =~= groups_view(gb).push(InnerInstructionsView { index: t, instructions: pb.map_values(|x: InnerInstruction| x@) }));
                        }
                    }
                },
                None => {},
            }
            current = Some(k as u8);
            proof {
                assert(pending@.map_values(|x: InnerInstruction| x@) =~= grouping(fv, (k + 1) as nat).pending);
            }
        } else {
            let ghost pb = pending@;
            pending.push(frame_inner_instruction(f));
            proof {
                assert(pending@.map_values(|x: InnerInstruction| x@) =~= pb.map_values(|x: InnerInstruction| x@).push(inner_instruction(f@)));
            }
        }
        k = k + 1;
    }
    match current {
        Some(t) => {
            if pending.len() > 0 {
                let ghost gb = groups@;
                let ghost pb = pending@;
                let taken = take_pending(&mut pending);
                groups.push(InnerInstructions { index: t, instructions: taken });
                proof {
                    assert(groups_view(groups@) =~= groups_view(gb).push(InnerInstructionsView { index: t, instructions: pb.map_values(|x: InnerInstruction| x@) }));
                }
            }
        },
        None => {},
    }
    (groups, ExecutionTrace { instructions: executed })
}

/// An execution that succeeded marks every invocation in its trace as
/// succeeded; one that failed marks the last invocation as failed and every
/// earlier one as succeeded.
pub proof fn law_trace_success(frames: Seq<TraceFrameView>, keys: Seq<Seq<u8>>, ok: bool, i: int)
    requires
        0 <= i < frames.len(),
    ensures
        executed_instruction(frames, keys, ok, i).succeeded == (ok || i != frames.len() - 1),
{
}

// ---------------------------------------------------------------------------
// Token balances
// ---------------------------------------------------------------------------

/// The decimals of the mint at `mint` among `accounts`: those of the first
/// account there when it is an initialized mint, else 0.
pub open spec fn mint_decimals(accounts: Seq<AccountView>, mint: Seq<u8>) -> u8 {
    match first_account(accounts, mint) {
        Some(a) => match unpack_mint(a.data) {
            Some(m) => m.decimals,
            None => 0,
        },
        None => 0,
    }
}

/// The token balance that account `i` of `accounts` holds, if it is an
/// initialized token account.
pub open spec fn token_balance_at(accounts: Seq<AccountView>, i: int) -> Option<TokenBalanceView> {
    match unpack_token_account(accounts[i].data) {
        Some(t) => Some(
            TokenBalanceView {
                account_index: i as usize,
                mint: t.mint,
                owner: t.owner,
                amount: t.amount,
                decimals: mint_decimals(accounts, t.mint),
            },
        ),
        None => None,
    }
}

/// The token balances among the first `n` accounts, in order.
pub open spec fn token_balances(accounts: Seq<AccountView>, n: nat) -> Seq<TokenBalanceView>
    decreases n,
{
    if n == 0 {
        Seq::empty()
    } else {
        let r = token_balances(accounts, (n - 1) as nat);
        match token_balance_at(accounts, n - 1) {
            Some(b) => r.push(b),
            None => r,
        }
    }
}

/// The views of a list of token balances.
pub open spec fn balances_view(v: Seq<TokenBalance>) -> Seq<TokenBalanceView> {
    v.map_values(|b: TokenBalance| b@)
}

/// The decimals of the mint at `mint` among `accounts`.
fn find_mint_decimals(accounts: &Vec<Account>, mint: &Pubkey) -> (r: u8)
    ensures
        r == mint_decimals(accounts_view(accounts@), mint@),
{
    match find_account(accounts, mint) {
        Some(j) => {
            if accounts[j].data.len() == crate::token::MINT_LEN {
                match Mint::unpack(accounts[j].data.as_slice()) {
                    Some(m) => m.decimals,
                    None => 0,
                }
            } else {
                0
            }
        },
        None => 0,
    }
}

/// The token balances of the token accounts among `accounts`, in order, each
/// with the decimals of its mint when the mint is among them.
pub fn extract_token_balances(accounts: &Vec<Account>) -> (r: Vec<TokenBalance>)
    ensures
        balances_view(r@) == token_balances(accounts_view(accounts@), accounts@.len() as nat),
{
    let ghost av = accounts_view(accounts@);
    let mut r: Vec<TokenBalance> = Vec::new();
    let mut i: usize = 0;
    while i < accounts.len()
        invariant
            i <= accounts@.len(),
            av == accounts_view(accounts@),
            balances_view(r@) == token_balances(av, i as nat),
        decreases accounts@.len() - i,
    {
        let ghost before = r@;
        proof {
            assert(av[i as int] == accounts@[i as int]@);
        }
        if accounts[i].data.len() == crate::token::TOKEN_ACCOUNT_LEN {
            match TokenAccount::unpack(accounts[i].data.as_slice()) {
                Some(t) => {
                    let decimals = find_mint_decimals(accounts, &t.mint);
                    r.push(TokenBalance { account_index: i, mint: t.mint, owner: t.owner, amount: t.amount, decimals });
                    proof {
                        assert(balances_view(r@) =~= balances_view(before).push(token_balance_at(av, i as int).unwrap()));
                    }
                },
                None => {},
            }
        }
        i = i + 1;
    }
    r
}

/// The lamports of each account, in order.
pub fn balances_of(accounts: &Vec<Account>) -> (r: Vec<u64>)
    ensures
        r@ == accounts_view(accounts@).map_values(|a: AccountView| a.lamports),
{
    let mut r: Vec<u64> = Vec::new();
    let mut i: usize = 0;
    while i < accounts.len()
        invariant
            i <= accounts@.len(),
            r@ == accounts_view(accounts@).take(i as int).map_values(|a: AccountView| a.lamports),
        decreases accounts@.len() - i,
    {
        r.push(accounts[i].lamports);
        proof {
            assert(r@ =~= accounts_view(accounts@).take(i + 1).map_values(|a: AccountView| a.lamports));
        }
        i = i + 1;
    }
    proof {
        assert(accounts_view(accounts@).take(accounts@.len() as int) =~= accounts_view(accounts@));
    }
    r
}

// ---------------------------------------------------------------------------
// Running and finishing an execution
// ---------------------------------------------------------------------------

/// How far the top-level instructions of an execution have got: the compute
/// units they consumed and the first error, if any.
pub struct ExecutionProgress {
    pub compute_units_consumed: u64,
    pub raw_result: Result<(), InstructionError>,
}

impl ExecutionProgress {
    /// No instruction run yet.
    pub fn new() -> (r: ExecutionProgress)
        ensures
            r.compute_units_consumed == 0,
            r.raw_result is Ok,
    {
        ExecutionProgress { compute_units_consumed: 0, raw_result: Ok(()) }
    }

    /// Records the outcome of the next top-level instruction: its units are
    /// added and an error ends the execution. Returns whether to run the next.
    pub fn record(&mut self, units: u64, outcome: Result<(), InstructionError>) -> (go_on: bool)
        requires
            old(self).compute_units_consumed + units <= u64::MAX,
        ensures
            final(self).compute_units_consumed == old(self).compute_units_consumed + units,
            go_on == outcome is Ok,
            outcome is Ok ==> final(self).raw_result == old(self).raw_result,
            outcome is Err ==> final(self).raw_result == outcome,
    {
        self.compute_units_consumed = self.compute_units_consumed + units;
        match outcome {
            Ok(()) => true,
            Err(e) => {
                self.raw_result = Err(e);
                false
            },
        }
    }
}

/// What the runtime reports of an execution.
pub struct RuntimeOutcome {
    pub compute_units_consumed: u64,
    pub execution_time_us: u64,
    pub raw_result: Result<(), InstructionError>,
    pub return_data: Vec<u8>,
    /// The transaction's accounts after the execution.
    pub transaction_accounts: Vec<Account>,
    pub logs: Vec<String>,
    pub frames: Vec<TraceFrame>,
}

/// Whether `r` reports an execution over the accounts `merged` with the
/// message keys `keys` whose runtime reported `outcome`: on success the
/// accounts take their state after it, on failure they stay as they were;
/// the outcome's result, units, time, return data and logs; balances and
/// token balances before and after; the nested invocations grouped by
/// top-level instruction; and the trace of every invocation.
pub open spec fn reports(r: ExecutionResult, merged: Seq<AccountView>, keys: Seq<Seq<u8>>, outcome: RuntimeOutcome) -> bool {
    &&& accounts_view(r.accounts@) == if outcome.raw_result is Ok {
        resulting_accounts(merged, accounts_view(outcome.transaction_accounts@))
    } else {
        merged
    }
    &&& r.raw_result == outcome.raw_result
    &&& r.compute_units_consumed == outcome.compute_units_consumed
    &&& r.execution_time_us == outcome.execution_time_us
    &&& r.return_data@ == outcome.return_data@
    &&& r.logs@ == outcome.logs@
    &&& r.pre_balances@ == merged.map_values(|a: AccountView| a.lamports)
    &&& r.post_balances@ == accounts_view(r.accounts@).map_values(|a: AccountView| a.lamports)
    &&& balances_view(r.pre_token_balances@) == token_balances(merged, merged.len())
    &&& balances_view(r.post_token_balances@) == token_balances(accounts_view(r.accounts@), r.accounts@.len() as nat)
    &&& groups_view(r.inner_instructions@) == inner_instruction_groups(frames_view(outcome.frames@))
    &&& r.execution_trace.instructions@.len() == outcome.frames@.len()
    &&& forall|i: int| 0 <= i < outcome.frames@.len() ==> (#[trigger] r.execution_trace.instructions@[i])@
        == executed_instruction(frames_view(outcome.frames@), keys, outcome.raw_result is Ok, i)
}

/// From the same prepared execution and runtime outcome, finishing it with
/// a commit (processing) and without one (simulating) report the same
/// result; only the store differs (see `finish_execution`).
pub proof fn law_simulation_reports_as_processing(
    simulated: ExecutionResult,
    processed: ExecutionResult,
    merged: Seq<AccountView>,
    keys: Seq<Seq<u8>>,
    outcome: RuntimeOutcome,
)
    requires
        reports(simulated, merged, keys, outcome),
        reports(processed, merged, keys, outcome),
    ensures
        simulated.raw_result == processed.raw_result,
        accounts_view(simulated.accounts@) == accounts_view(processed.accounts@),
        simulated.compute_units_consumed == processed.compute_units_consumed,
        simulated.execution_time_us == processed.execution_time_us,
        simulated.return_data@ == processed.return_data@,
        simulated.logs@ == processed.logs@,
        simulated.pre_balances@ == processed.pre_balances@,
        simulated.post_balances@ == processed.post_balances@,
        balances_view(simulated.pre_token_balances@) == balances_view(processed.pre_token_balances@),
        balances_view(simulated.post_token_balances@) == balances_view(processed.post_token_balances@),
        groups_view(simulated.inner_instructions@) == groups_view(processed.inner_instructions@),
        executed_view(simulated.execution_trace.instructions@) == executed_view(processed.execution_trace.instructions@),
{
    assert(simulated.accounts@.len() == processed.accounts@.len()) by {
        assert(accounts_view(simulated.accounts@).len() == accounts_view(processed.accounts@).len());
    }
    assert(executed_view(simulated.execution_trace.instructions@) =~= executed_view(processed.execution_trace.instructions@));
}

impl QuasarSvm {
    /// Finishes an execution: on success the merged accounts take their
    /// state after it (and, with `commit`, are stored); on failure they stay
    /// as they were and nothing is stored. Balances before and after, token
    /// balances and the trace complete the result.
    pub fn finish_execution(&mut self, prepared: PreparedExecution, outcome: RuntimeOutcome, commit: bool) -> (r: ExecutionResult)
        requires
            old(self).wf(),
        ensures
            final(self).wf(),
            final(self).sysvars == old(self).sysvars,
            final(self).program_cache == old(self).program_cache,
            reports(r, accounts_view(prepared.merged@), keys_view(prepared.account_keys@), outcome),
            final(self).store() == if outcome.raw_result is Ok && commit {
                upsert_all(old(self).store(), accounts_view(r.accounts@))
            } else {
                old(self).store()
            },
    {
        let ok = outcome.raw_result.is_ok();
        let pre_balances = balances_of(&prepared.merged);
        let pre_token_balances = extract_token_balances(&prepared.merged);
        let resulting = if ok {
            let res = deconstruct_resulting_accounts(&prepared.merged, &outcome.transaction_accounts);
            if commit {
                self.commit_accounts(&res);
            }
            res
        } else {
            copy_accounts(&prepared.merged)
        };
        let post_balances = balances_of(&resulting);
        let post_token_balances = extract_token_balances(&resulting);
        let (inner_instructions, execution_trace) = extract_execution_trace(&outcome.frames, &prepared.account_keys, ok);
        ExecutionResult {
            compute_units_consumed: outcome.compute_units_consumed,
            execution_time_us: outcome.execution_time_us,
            raw_result: outcome.raw_result,
            return_data: outcome.return_data,
            accounts: resulting,
            logs: outcome.logs,
            pre_balances,
            post_balances,
            pre_token_balances,
            post_token_balances,
            inner_instructions,
            execution_trace,
        }
    }
}

// ---------------------------------------------------------------------------
// Laws of finishing an execution
// ---------------------------------------------------------------------------

/// After a run, each account keeps its place, and takes in full (lamports,
/// data, owner, executable flag) the state of the first account at its
/// address among the transaction's accounts after the run; an account the
/// run does not hold stays as it was.
pub proof fn law_resulting_accounts_take_the_run(original: Seq<AccountView>, after: Seq<AccountView>)
    ensures
        resulting_accounts(original, after).len() == original.len(),
        forall|i: int| 0 <= i < original.len() ==> #[trigger] resulting_accounts(original, after)[i] == match first_account(
            after,
            original[i].address,
        ) {
            Some(a) => a,
            None => original[i],
        },
{
}

/// Token balances list every token account (initialized or frozen) among the
/// first `n` accounts exactly once, in order of index, with its mint, owner
/// and amount, and the decimals of its mint; and nothing else.
#[verifier::spinoff_prover]
#[verifier::rlimit(40)]
pub proof fn law_token_balances_list_every_token_account(accounts: Seq<AccountView>, n: nat)
    requires
        n <= accounts.len(),
        accounts.len() <= usize::MAX,
    ensures
        forall|j: int| 0 <= j < token_balances(accounts, n).len() ==> {
            let b = #[trigger] token_balances(accounts, n)[j];
            &&& b.account_index < n
            &&& unpack_token_account(accounts[b.account_index as int].data) matches Some(t) && b.mint == t.mint
                && b.owner == t.owner && b.amount == t.amount
            &&& b.decimals == mint_decimals(accounts, b.mint)
        },
        forall|j: int, k: int| 0 <= j < k < token_balances(accounts, n).len() ==> (#[trigger] token_balances(accounts, n)[j]).account_index
            < (#[trigger] token_balances(accounts, n)[k]).account_index,
        forall|i: int| 0 <= i < n && (#[trigger] unpack_token_account(accounts[i].data)) is Some ==> exists|j: int|
            0 <= j < token_balances(accounts, n).len() && token_balances(accounts, n)[j].account_index == i,
    decreases n,
{
    if n > 0 {
        let m = (n - 1) as nat;
        law_token_balances_list_every_token_account(accounts, m);
        let r = token_balances(accounts, m);
        let full = token_balances(accounts, n);
        match token_balance_at(accounts, m as int) {
            Some(b) => {
                assert(full == r.push(b));
                assert forall|i: int| 0 <= i < n && (#[trigger] unpack_token_account(accounts[i].data)) is Some implies exists|j: int|
                    0 <= j < full.len() && full[j].account_index == i by {
                    if i < m {
                        let j = choose|j: int| 0 <= j < r.len() && r[j].account_index == i;
                        assert(full[j] == r[j]);
                    } else {
                        assert(full[r.len() as int].account_index == i);
                    }
                }
            },
            None => {
                assert(full == r);
            },
        }
    }
}

// ---------------------------------------------------------------------------
// Laws of the trace
// ---------------------------------------------------------------------------

/// The invocations among `frames` made below the top level, in order.
pub open spec fn nested_invocations(frames: Seq<TraceFrameView>) -> Seq<InnerInstructionView>
    decreases frames.len(),
{
    if frames.len() == 0 {
        Seq::empty()
    } else if frames.last().nesting_level != 0 {
        nested_invocations(frames.drop_last()).push(inner_instruction(frames.last()))
    } else {
        nested_invocations(frames.drop_last())
    }
}

/// Whether some frame is a top-level invocation.
pub open spec fn has_top_level(frames: Seq<TraceFrameView>) -> bool {
    exists|t: int| 0 <= t < frames.len() && #[trigger] frames[t].nesting_level == 0
}

/// The instructions of the groups, one group after the other.
pub open spec fn group_instructions(groups: Seq<InnerInstructionsView>) -> Seq<InnerInstructionView>
    decreases groups.len(),
{
    if groups.len() == 0 {
        Seq::empty()
    } else {
        group_instructions(groups.drop_last()) + groups.last().instructions
    }
}

/// What grouping the first `n` frames holds: before any top-level frame, no
/// group and every nested invocation pending; after one, the groups and the
/// pending invocations together are the nested invocations so far, and the
/// current and every grouped index is that of a top-level frame.
proof fn lemma_grouping(frames: Seq<TraceFrameView>, n: nat)
    requires
        n <= frames.len(),
    ensures
        grouping(frames, n).current is None ==> grouping(frames, n).groups.len() == 0 && !has_top_level(frames.take(n as int))
            && grouping(frames, n).pending == nested_invocations(frames.take(n as int)),
        grouping(frames, n).current is Some ==> has_top_level(frames.take(n as int)) && group_instructions(grouping(frames, n).groups)
            + grouping(frames, n).pending == nested_invocations(frames.take(n as int)),
        grouping(frames, n).current matches Some(c) ==> exists|t: int| 0 <= t < n && #[trigger] frames[t].nesting_level == 0 && c == t as u8,
        forall|j: int| 0 <= j < grouping(frames, n).groups.len() ==> (#[trigger] grouping(frames, n).groups[j]).instructions.len() > 0
            && exists|t: int| 0 <= t < n && #[trigger] frames[t].nesting_level == 0 && grouping(frames, n).groups[j].index == t as u8,
    decreases n,
{
    let pre = frames.take(n as int);
    if n == 0 {
        assert(pre =~= Seq::<TraceFrameView>::empty());
    } else {
        let m = (n - 1) as nat;
        lemma_grouping(frames, m);
        let st0 = grouping(frames, m);
        let st = grouping(frames, n);
        let pre0 = frames.take(m as int);
        let f = frames[m as int];
        assert(pre.drop_last() =~= pre0);
        assert(pre.last() == f);
        assert forall|t: int| 0 <= t < pre.len() implies pre[t] == frames[t] by {}
        assert forall|t: int| 0 <= t < pre0.len() implies pre0[t] == frames[t] by {}
        if f.nesting_level == 0 {
            assert(nested_invocations(pre) == nested_invocations(pre0));
            assert(pre[m as int].nesting_level == 0);
            match st0.current {
                Some(c) => {
                    if st0.pending.len() > 0 {
                        let g = InnerInstructionsView { index: c, instructions: st0.pending };
                        assert(st.groups == st0.groups.push(g));
                        assert(st.groups.drop_last() =~= st0.groups);
                        assert(group_instructions(st.groups) == group_instructions(st0.groups) + st0.pending);
                        assert forall|j: int| 0 <= j < st.groups.len() implies (#[trigger] st.groups[j]).instructions.len() > 0
                            && exists|t: int| 0 <= t < n && #[trigger] frames[t].nesting_level == 0 && st.groups[j].index == t as u8 by {
                            if j < st0.groups.len() {
                                assert(st.groups[j] == st0.groups[j]);
                                let t = choose|t: int| 0 <= t < m && #[trigger] frames[t].nesting_level == 0 && st0.groups[j].index == t as u8;
                                assert(frames[t].nesting_level == 0);
                            } else {
                                let t = choose|t: int| 0 <= t < m && #[trigger] frames[t].nesting_level == 0 && c == t as u8;
                                assert(frames[t].nesting_level == 0);
                            }
                        }
                    } else {
                        assert(st.groups == st0.groups);
                        assert(st.pending =~= Seq::<InnerInstructionView>::empty());
                        assert(st0.pending =~= Seq::<InnerInstructionView>::empty());
                        assert forall|j: int| 0 <= j < st.groups.len() implies (#[trigger] st.groups[j]).instructions.len() > 0
                            && exists|t: int| 0 <= t < n && #[trigger] frames[t].nesting_level == 0 && st.groups[j].index == t as u8 by {
                            let t = choose|t: int| 0 <= t < m && #[trigger] frames[t].nesting_level == 0 && st0.groups[j].index == t as u8;
                            assert(frames[t].nesting_level == 0);
                        }
                    }
                    assert(group_instructions(st.groups) + st.pending =~= nested_invocations(pre));
                },
                None => {
                    assert(group_instructions(st.groups) =~= Seq::<InnerInstructionView>::empty());
                    assert(group_instructions(st.groups) + st.pending =~= nested_invocations(pre));
                },
            }
            assert(frames[m as int].nesting_level == 0);
            assert(st.current == Some(m as u8));
        } else {
            assert(nested_invocations(pre) == nested_invocations(pre0).push(inner_instruction(f)));
            assert(st.groups == st0.groups);
            assert(st.current == st0.current);
            assert(st.pending == st0.pending.push(inner_instruction(f)));
            match st0.current {
                Some(c) => {
                    let t0 = choose|t: int| 0 <= t < pre0.len() && #[trigger] pre0[t].nesting_level == 0;
                    assert(pre[t0].nesting_level == 0);
                    assert(group_instructions(st.groups) + st.pending =~= nested_invocations(pre));
                    let t = choose|t: int| 0 <= t < m && #[trigger] frames[t].nesting_level == 0 && c == t as u8;
                    assert(frames[t].nesting_level == 0);
                },
                None => {
                    assert forall|t: int| 0 <= t < pre.len() implies #[trigger] pre[t].nesting_level != 0 by {
                        if t < m {
                            assert(pre0[t].nesting_level != 0);
                        }
                    }
                },
            }
            assert forall|j: int| 0 <= j < st.groups.len() implies (#[trigger] st.groups[j]).instructions.len() > 0
                && exists|t: int| 0 <= t < n && #[trigger] frames[t].nesting_level == 0 && st.groups[j].index == t as u8 by {
                let t = choose|t: int| 0 <= t < m && #[trigger] frames[t].nesting_level == 0 && st0.groups[j].index == t as u8;
                assert(frames[t].nesting_level == 0);
            }
        }
    }
}

/// Grouping nested invocations loses none and invents none: once there is a
/// top-level invocation, the groups together hold every invocation made below
/// the top level, in order (the last group included), and nothing when there
/// is none; each group is non-empty and is filed under a top-level frame.
pub proof fn law_inner_instructions_keep_every_nested_invocation(frames: Seq<TraceFrameView>)
    ensures
        group_instructions(inner_instruction_groups(frames)) == if has_top_level(frames) {
            nested_invocations(frames)
        } else {
            Seq::<InnerInstructionView>::empty()
        },
        forall|j: int| 0 <= j < inner_instruction_groups(frames).len() ==> (#[trigger] inner_instruction_groups(frames)[j]).instructions.len()
            > 0 && exists|t: int| 0 <= t < frames.len() && #[trigger] frames[t].nesting_level == 0
            && inner_instruction_groups(frames)[j].index == t as u8,
{
    let n = frames.len();
    lemma_grouping(frames, n);
    assert(frames.take(n as int) =~= frames);
    let st = grouping(frames, n);
    let gs = inner_instruction_groups(frames);
    match st.current {
        Some(c) => {
            if st.pending.len() > 0 {
                let g = InnerInstructionsView { index: c, instructions: st.pending };
                assert(gs == st.groups.push(g));
                assert(gs.drop_last() =~= st.groups);
                assert(group_instructions(gs) == group_instructions(st.groups) + st.pending);
                assert forall|j: int| 0 <= j < gs.len() implies (#[trigger] gs[j]).instructions.len() > 0 && exists|t: int|
                    0 <= t < frames.len() && #[trigger] frames[t].nesting_level == 0 && gs[j].index == t as u8 by {
                    if j < st.groups.len() {
                        assert(gs[j] == st.groups[j]);
                        let t = choose|t: int| 0 <= t < n && #[trigger] frames[t].nesting_level == 0 && st.groups[j].index == t as u8;
                        assert(frames[t].nesting_level == 0);
                    } else {
                        let t = choose|t: int| 0 <= t < n && #[trigger] frames[t].nesting_level == 0 && c == t as u8;
                        assert(frames[t].nesting_level == 0);
                    }
                }
            } else {
                assert(st.pending =~= Seq::<InnerInstructionView>::empty());
                assert(group_instructions(gs) =~= group_instructions(st.groups) + st.pending);
                assert forall|j: int| 0 <= j < gs.len() implies (#[trigger] gs[j]).instructions.len() > 0 && exists|t: int|
                    0 <= t < frames.len() && #[trigger] frames[t].nesting_level == 0 && gs[j].index == t as u8 by {
                    let t = choose|t: int| 0 <= t < n && #[trigger] frames[t].nesting_level == 0 && st.groups[j].index == t as u8;
                    assert(frames[t].nesting_level == 0);
                }
            }
        },
        None => {
            assert(group_instructions(gs) =~= Seq::<InnerInstructionView>::empty());
        },
    }
}


/// The index of the last top-level frame among the first `k` frames, if any.
pub open spec fn last_top_level(frames: Seq<TraceFrameView>, k: nat) -> Option<int>
    decreases k,
{
    if k == 0 {
        None
    } else if frames[k - 1].nesting_level == 0 {
        Some(k - 1)
    } else {
        last_top_level(frames, (k - 1) as nat)
    }
}

/// The index of the first top-level frame at or after `k`, if any.
pub open spec fn next_top_level(frames: Seq<TraceFrameView>, k: nat) -> Option<int>
    decreases frames.len() - k,
{
    if k >= frames.len() {
        None
    } else if frames[k as int].nesting_level == 0 {
        Some(k as int)
    } else {
        next_top_level(frames, k + 1)
    }
}

/// The top-level frame that the frame at `k` runs under: the last top-level
/// frame before it, or, before any, the first one after it.
pub open spec fn top_level_of(frames: Seq<TraceFrameView>, k: nat) -> Option<int> {
    match last_top_level(frames, k) {
        Some(t) => Some(t),
        None => next_top_level(frames, k),
    }
}

/// Each invocation below the top level among the first `n` frames, in order,
/// with the index of the top-level frame it runs under.
pub open spec fn filed_invocations(frames: Seq<TraceFrameView>, n: nat) -> Seq<(u8, InnerInstructionView)>
    decreases n,
{
    if n == 0 {
        Seq::empty()
    } else if frames[n - 1].nesting_level != 0 {
        filed_invocations(frames, (n - 1) as nat).push(
            (top_level_of(frames, (n - 1) as nat).unwrap() as u8, inner_instruction(frames[n - 1])),
        )
    } else {
        filed_invocations(frames, (n - 1) as nat)
    }
}

/// The instructions of the groups, one group after the other, each with the
/// index its group is filed under.
pub open spec fn filed_groups(groups: Seq<InnerInstructionsView>) -> Seq<(u8, InnerInstructionView)>
    decreases groups.len(),
{
    if groups.len() == 0 {
        Seq::empty()
    } else {
        filed_groups(groups.drop_last()) + groups.last().instructions.map_values(
            |x: InnerInstructionView| (groups.last().index, x),
        )
    }
}

/// A top-level frame among the first `k` frames makes the last one found.
proof fn lemma_last_top_level_found(frames: Seq<TraceFrameView>, k: nat, t: int)
    requires
        0 <= t < k <= frames.len(),
        frames[t].nesting_level == 0,
    ensures
        last_top_level(frames, k) is Some,
    decreases k,
{
    if frames[k - 1].nesting_level != 0 {
        lemma_last_top_level_found(frames, (k - 1) as nat, t);
    }
}

/// What grouping the first `n` frames holds, invocation by invocation: before
/// any top-level frame every invocation waits, to be filed under the first
/// top-level frame to come; after one, the groups and then the waiting
/// invocations, filed under the last top-level frame so far, are the filed
/// invocations so far.
proof fn lemma_filing(frames: Seq<TraceFrameView>, n: nat)
    requires
        n <= frames.len(),
    ensures
        grouping(frames, n).current is None ==> last_top_level(frames, n) is None && filed_invocations(frames, n)
            == grouping(frames, n).pending.map_values(
            |x: InnerInstructionView| (next_top_level(frames, n).unwrap() as u8, x),
        ),
        grouping(frames, n).current matches Some(c) ==> last_top_level(frames, n) matches Some(t) && c == t as u8
            && filed_groups(grouping(frames, n).groups) + grouping(frames, n).pending.map_values(
            |x: InnerInstructionView| (c, x),
        ) == filed_invocations(frames, n),
    decreases n,
{
    if n > 0 {
        let m = (n - 1) as nat;
        lemma_filing(frames, m);
        let st0 = grouping(frames, m);
        let st = grouping(frames, n);
        let f = frames[m as int];
        if f.nesting_level == 0 {
            assert(filed_invocations(frames, n) == filed_invocations(frames, m));
            assert(last_top_level(frames, n) == Some(m as int));
            match st0.current {
                Some(c) => {
                    let lab = |x: InnerInstructionView| (c, x);
                    if st0.pending.len() > 0 {
                        let g = InnerInstructionsView { index: c, instructions: st0.pending };
                        assert(st.groups == st0.groups.push(g));
                        assert(st.groups.drop_last() =~= st0.groups);
                        assert(filed_groups(st.groups) == filed_groups(st0.groups) + st0.pending.map_values(lab));
                    } else {
                        assert(st.groups == st0.groups);
                        assert(st0.pending.map_values(lab) =~= Seq::<(u8, InnerInstructionView)>::empty());
                    }
                    assert(st.pending =~= Seq::<InnerInstructionView>::empty());
                    let lab2 = |x: InnerInstructionView| ((m as int) as u8, x);
                    assert(st.pending.map_values(lab2) =~= Seq::<(u8, InnerInstructionView)>::empty());
                    assert(filed_groups(st.groups) + st.pending.map_values(lab2) =~= filed_invocations(frames, n));
                },
                None => {
                    assert(next_top_level(frames, m) == Some(m as int));
                    assert(st.groups == st0.groups);
                    assert(st0.groups.len() == 0) by {
                        lemma_grouping(frames, m);
                    }
                    assert(filed_groups(st.groups) =~= Seq::<(u8, InnerInstructionView)>::empty());
                    let lab2 = |x: InnerInstructionView| ((m as int) as u8, x);
                    assert(st.pending.map_values(lab2) =~= st0.pending.map_values(
                        |x: InnerInstructionView| (next_top_level(frames, m).unwrap() as u8, x),
                    ));
                    assert(filed_groups(st.groups) + st.pending.map_values(lab2) =~= filed_invocations(frames, n));
                },
            }
        } else {
            let ix = inner_instruction(f);
            assert(last_top_level(frames, n) == last_top_level(frames, m));
            assert(st.groups == st0.groups);
            assert(st.current == st0.current);
            assert(st.pending == st0.pending.push(ix));
            match st0.current {
                Some(c) => {
                    let lab = |x: InnerInstructionView| (c, x);
                    assert(top_level_of(frames, m) == last_top_level(frames, m));
                    assert(filed_invocations(frames, n) == filed_invocations(frames, m).push((c, ix)));
                    assert(st.pending.map_values(lab) =~= st0.pending.map_values(lab).push((c, ix)));
                    assert(filed_groups(st.groups) + st.pending.map_values(lab) =~= filed_invocations(frames, n));
                },
                None => {
                    assert(next_top_level(frames, m) == next_top_level(frames, n));
                    assert(top_level_of(frames, m) == next_top_level(frames, n));
                    let o = next_top_level(frames, n).unwrap() as u8;
                    let lab = |x: InnerInstructionView| (o, x);
                    assert(filed_invocations(frames, n) == filed_invocations(frames, m).push((o, ix)));
                    assert(st0.pending.map_values(lab) =~= st0.pending.map_values(
                        |x: InnerInstructionView| (next_top_level(frames, m).unwrap() as u8, x),
                    ));
                    assert(st.pending.map_values(lab) =~= st0.pending.map_values(lab).push((o, ix)));
                },
            }
        }
    } else {
        assert(grouping(frames, 0).pending.map_values(
            |x: InnerInstructionView| (next_top_level(frames, 0).unwrap() as u8, x),
        ) =~= Seq::<(u8, InnerInstructionView)>::empty());
    }
}

/// Each invocation made below the top level is filed, in order, under the
/// top-level instruction it ran in: the last top-level frame before it (or,
/// for one made before any, the first top-level frame). So the groups hold
/// every such invocation exactly once, under the right index.
pub proof fn law_inner_instructions_filed_under_their_top_level(frames: Seq<TraceFrameView>)
    requires
        has_top_level(frames),
    ensures
        filed_groups(inner_instruction_groups(frames)) == filed_invocations(frames, frames.len()),
{
    let n = frames.len();
    lemma_filing(frames, n);
    let t = choose|t: int| 0 <= t < frames.len() && #[trigger] frames[t].nesting_level == 0;
    lemma_last_top_level_found(frames, n, t);
    let st = grouping(frames, n);
    let gs = inner_instruction_groups(frames);
    match st.current {
        Some(c) => {
            let lab = |x: InnerInstructionView| (c, x);
            if st.pending.len() > 0 {
                let g = InnerInstructionsView { index: c, instructions: st.pending };
                assert(gs == st.groups.push(g));
                assert(gs.drop_last() =~= st.groups);
                assert(filed_groups(gs) == filed_groups(st.groups) + st.pending.map_values(lab));
            } else {
                assert(gs == st.groups);
                assert(st.pending.map_values(lab) =~= Seq::<(u8, InnerInstructionView)>::empty());
                assert(filed_groups(gs) =~= filed_groups(st.groups) + st.pending.map_values(lab));
            }
        },
        None => {},
    }
}

} // verus!
