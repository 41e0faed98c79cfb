//! The programs an SVM knows, and the accounts that stand for them when a
//! transaction names a program that the caller did not pass.
use vstd::prelude::*;
use crate::account::{Account, AccountView};
use crate::loader_keys::{is_loader, LOADER_V2, LOADER_V3, NATIVE_LOADER};
use crate::ids::SYSTEM_PROGRAM_ID;
use crate::pubkey::{Pubkey, spec_find_program_address, try_find_program_address};
use crate::rent::{Rent, spec_minimum_balance, minimum_balance_fits, DEFAULT_LAMPORTS_PER_BYTE_YEAR, DEFAULT_EXEMPTION_THRESHOLD_BITS, DEFAULT_BURN_PERCENT};
use crate::wire::u64_bytes;

verus! {

/// A registered program: its address, the loader that owns it and, for a
/// program loaded from an ELF image, the image.
pub struct ProgramEntry {
    pub program_id: Pubkey,
    pub loader_key: Pubkey,
    pub elf: Option<Vec<u8>>,
}

/// The mathematical value of a registered program, apart from its address.
pub struct ProgramEntryView {
    pub loader_key: Seq<u8>,
    pub elf: Option<Seq<u8>>,
}

impl View for ProgramEntry {
    type V = ProgramEntryView;

    open spec fn view(&self) -> ProgramEntryView {
        ProgramEntryView {
            loader_key: self.loader_key@,
            elf: match self.elf {
                Some(v) => Some(v@),
                None => None,
            },
        }
    }
}

/// The entry of the builtin program at `k`, if `k` is one: the system program
/// and the two BPF loaders, each owned by the native loader.
pub open spec fn builtin_entry(k: Seq<u8>) -> Option<ProgramEntryView> {
    if k == SYSTEM_PROGRAM_ID@ || k == LOADER_V2@ || k == LOADER_V3@ {
        Some(ProgramEntryView { loader_key: NATIVE_LOADER@, elf: None })
    } else {
        None
    }
}

/// The registry of programs, at most one entry per address.
pub struct ProgramCache {
    pub entries: Vec<ProgramEntry>,
}

/// The bytes `builtin`, the data of a builtin program's account.
pub open spec fn builtin_marker() -> Seq<u8> {
    seq![98u8, 117u8, 105u8, 108u8, 116u8, 105u8, 110u8]
}

/// The minimum balance under the default rent.
pub open spec fn default_minimum_balance(len: int) -> u64 {
    spec_minimum_balance(
        DEFAULT_LAMPORTS_PER_BYTE_YEAR,
        DEFAULT_EXEMPTION_THRESHOLD_BITS,
        DEFAULT_BURN_PERCENT,
        len as usize,
    )
}

/// The address of the program-data account of an upgradeable program, if one
/// can be derived.
pub open spec fn programdata_address(program_id: Seq<u8>) -> Option<Seq<u8>> {
    match spec_find_program_address(seq![program_id], LOADER_V3@) {
        Some((k, _)) => Some(k),
        None => None,
    }
}

/// The bytes of an upgradeable program's account: the `Program` state tag and
/// the program-data address.
pub open spec fn program_state_bytes(programdata: Seq<u8>) -> Seq<u8> {
    seq![2u8, 0u8, 0u8, 0u8] + programdata
}

/// The bytes of a program-data header: the `ProgramData` state tag, the slot
/// and no upgrade authority.
pub open spec fn programdata_header_bytes(slot: u64) -> Seq<u8> {
    seq![3u8, 0u8, 0u8, 0u8] + u64_bytes(slot) + seq![0u8]
}

/// The accounts that stand for the program at `key` registered as `entry`.
pub open spec fn spec_program_accounts(key: Seq<u8>, entry: Option<ProgramEntryView>) -> Seq<AccountView> {
    match entry {
        None => Seq::empty(),
        Some(e) => if e.loader_key == NATIVE_LOADER@ {
            seq![
                AccountView {
                    address: key,
                    lamports: default_minimum_balance(7),
                    data: builtin_marker(),
                    owner: NATIVE_LOADER@,
                    executable: true,
                },
            ]
        } else if e.loader_key == LOADER_V2@ {
            seq![
                AccountView {
                    address: key,
                    lamports: default_minimum_balance(0),
                    data: Seq::empty(),
                    owner: LOADER_V2@,
                    executable: true,
                },
            ]
        } else if e.loader_key == LOADER_V3@ {
            let pda = programdata_address(key).unwrap();
            let pdata = programdata_header_bytes(0) + match e.elf {
                Some(elf) => elf,
                None => Seq::empty(),
            };
            seq![
                AccountView {
                    address: key,
                    lamports: default_minimum_balance(36),
                    data: program_state_bytes(pda),
                    owner: LOADER_V3@,
                    executable: true,
                },
                AccountView {
                    address: pda,
                    lamports: default_minimum_balance(pdata.len() as int),
                    data: pdata,
                    owner: LOADER_V3@,
                    executable: false,
                },
            ]
        } else {
            seq![
                AccountView {
                    address: key,
                    lamports: 0,
                    data: Seq::empty(),
                    owner: SYSTEM_PROGRAM_ID@,
                    executable: true,
                },
            ]
        },
    }
}

impl ProgramCache {
    /// No two entries share an address.
    pub open spec fn wf(&self) -> bool {
        forall|i: int, j: int|
            0 <= i < j < self.entries@.len() ==> #[trigger] self.entries@[i].program_id@
                != #[trigger] self.entries@[j].program_id@
    }

    /// The entry registered at `id`, if any.
    pub open spec fn entry(&self, id: Seq<u8>) -> Option<ProgramEntryView> {
        if exists|i: int| 0 <= i < self.entries@.len() && self.entries@[i].program_id@ == id {
            let i = choose|i: int| 0 <= i < self.entries@.len() && self.entries@[i].program_id@ == id;
            Some(self.entries@[i]@)
        } else {
            None
        }
    }

    /// The length of the program-data account of the program at `key`.
    pub open spec fn programdata_len(&self, key: Seq<u8>) -> int {
        match self.entry(key) {
            Some(e) => 13 + match e.elf {
                Some(elf) => elf.len() as int,
                None => 0int,
            },
            None => 13,
        }
    }

    /// Whether the program-data account of the program at `key` has a length
    /// and a minimum balance that fit the machine's integers.
    pub open spec fn programdata_fits(&self, key: Seq<u8>) -> bool {
        &&& self.programdata_len(key) <= usize::MAX
        &&& minimum_balance_fits(Rent::default_rent_spec(), self.programdata_len(key) as usize)
    }

    /// Whether the accounts of the program at `key` can be built: lengths fit,
    /// and an upgradeable program's program-data address can be derived.
    pub open spec fn accounts_buildable(&self, key: Seq<u8>) -> bool {
        &&& self.programdata_fits(key)
        &&& (self.entry(key) matches Some(e) && e.loader_key == LOADER_V3@) ==> programdata_address(key) is Some
    }

    /// The index of the entry at `id`.
    fn find(&self, id: &Pubkey) -> (r: Option<usize>)
        requires
            self.wf(),
        ensures
            r matches Some(i) ==> i < self.entries@.len() && self.entries@[i as int].program_id@ == id@,
            r is None ==> forall|i: int| 0 <= i < self.entries@.len() ==> #[trigger] self.entries@[i].program_id@ != id@,
            r matches Some(i) ==> self.entry(id@) == Some(self.entries@[i as int]@),
            r is None ==> self.entry(id@) is None,
    {
        let mut i: usize = 0;
        while i < self.entries.len()
            invariant
                self.wf(),
                i <= self.entries@.len(),
                forall|j: int| 0 <= j < i ==> #[trigger] self.entries@[j].program_id@ != id@,
            decreases self.entries@.len() - i,
        {
            if self.entries[i].program_id == *id {
                proof {
                    let c = choose|c: int| 0 <= c < self.entries@.len() && self.entries@[c].program_id@ == id@;
                    if c != i {
                        if c < i {
                            assert(self.entries@[c].program_id@ != self.entries@[i as int].program_id@);
                        } else {
                            assert(self.entries@[i as int].program_id@ != self.entries@[c].program_id@);
                        }
                    }
                }
                return Some(i);
            }
            i = i + 1;
        }
        None
    }

    /// A registry holding the builtin programs: the system program and the
    /// two BPF loaders, each owned by the native loader.
    pub fn new() -> (r: ProgramCache)
        ensures
            r.wf(),
            r.entry(SYSTEM_PROGRAM_ID@) == Some(ProgramEntryView { loader_key: NATIVE_LOADER@, elf: None }),
            r.entry(LOADER_V2@) == Some(ProgramEntryView { loader_key: NATIVE_LOADER@, elf: None }),
            r.entry(LOADER_V3@) == Some(ProgramEntryView { loader_key: NATIVE_LOADER@, elf: None }),
            forall|k: Seq<u8>| k != SYSTEM_PROGRAM_ID@ && k != LOADER_V2@ && k != LOADER_V3@ ==> #[trigger] r.entry(k) is None,
            forall|k: Seq<u8>| #[trigger] r.entry(k) == builtin_entry(k),
    {
        let mut c = ProgramCache { entries: Vec::new() };
        c.replenish(Pubkey::new_from_array(SYSTEM_PROGRAM_ID), Pubkey::new_from_array(NATIVE_LOADER), None);
        c.replenish(Pubkey::new_from_array(LOADER_V2), Pubkey::new_from_array(NATIVE_LOADER), None);
        c.replenish(Pubkey::new_from_array(LOADER_V3), Pubkey::new_from_array(NATIVE_LOADER), None);
        c
    }

    /// Registers (or replaces) the program at `program_id`.
    pub fn replenish(&mut self, program_id: Pubkey, loader_key: Pubkey, elf: Option<Vec<u8>>)
        requires
            old(self).wf(),
        ensures
            final(self).wf(),
            final(self).entry(program_id@) == Some(
                ProgramEntryView {
                    loader_key: loader_key@,
                    elf: match elf {
                        Some(v) => Some(v@),
                        None => None,
                    },
                },
            ),
            forall|k: Seq<u8>| k != program_id@ ==> #[trigger] final(self).entry(k) == old(self).entry(k),
    {
        let ghost old_entries = self.entries@;
        let new_entry = ProgramEntry { program_id, loader_key, elf };
        match self.find(&program_id) {
            Some(i) => {
                self.entries.set(i, new_entry);
                proof {
                    assert(self.entries@ == old_entries.update(i as int, new_entry));
                    assert forall|k: Seq<u8>| k != program_id@ implies #[trigger] self.entry(k) == old(self).entry(k) by {
                        if exists|j: int| 0 <= j < old_entries.len() && old_entries[j].program_id@ == k {
                            let j = choose|j: int| 0 <= j < old_entries.len() && old_entries[j].program_id@ == k;
                            assert(self.entries@[j].program_id@ == k);
                        }
                        if exists|j: int| 0 <= j < self.entries@.len() && self.entries@[j].program_id@ == k {
                            let j = choose|j: int| 0 <= j < self.entries@.len() && self.entries@[j].program_id@ == k;
                            assert(old_entries[j].program_id@ == k);
                        }
                    }
                    assert(self.entries@[i as int].program_id@ == program_id@);
                }
            },
            None => {
                self.entries.push(new_entry);
                proof {
                    let n = old_entries.len() as int;
                    assert(self.entries@[n].program_id@ == program_id@);
                    assert forall|k: Seq<u8>| k != program_id@ implies #[trigger] self.entry(k) == old(self).entry(k) by {
                        if exists|j: int| 0 <= j < old_entries.len() && old_entries[j].program_id@ == k {
                            let j = choose|j: int| 0 <= j < old_entries.len() && old_entries[j].program_id@ == k;
                            assert(self.entries@[j].program_id@ == k);
                        }
                        if exists|j: int| 0 <= j < self.entries@.len() && self.entries@[j].program_id@ == k {
                            let j = choose|j: int| 0 <= j < self.entries@.len() && self.entries@[j].program_id@ == k;
                            assert(old_entries[j].program_id@ == k);
                        }
                    }
                }
            },
        }
        proof {
            let c = choose|c: int| 0 <= c < self.entries@.len() && self.entries@[c].program_id@ == program_id@;
            assert(self.entries@[c]@ == new_entry@);
        }
    }

    /// Registers the program at `program_id`, loaded from `elf` under `loader_key`.
    pub fn add_program(&mut self, program_id: &Pubkey, loader_key: &Pubkey, elf: &[u8])
        requires
            old(self).wf(),
            is_loader(loader_key@),
        ensures
            final(self).wf(),
            final(self).entry(program_id@) == Some(ProgramEntryView { loader_key: loader_key@, elf: Some(elf@) }),
            forall|k: Seq<u8>| k != program_id@ ==> #[trigger] final(self).entry(k) == old(self).entry(k),
    {
        let mut copy: Vec<u8> = Vec::new();
        let mut i: usize = 0;
        while i < elf.len()
            invariant
                i <= elf@.len(),
                copy@ == elf@.subrange(0, i as int),
            decreases elf@.len() - i,
        {
            copy.push(elf[i]);
            i = i + 1;
            proof {
                assert(copy@ =~= elf@.subrange(0, i as int));
            }
        }
        proof {
            assert(copy@ =~= elf@);
        }
        self.replenish(*program_id, *loader_key, Some(copy));
    }

    /// The accounts that stand for the program at `pubkey`, or `None` when the
    /// program-data address of an upgradeable program cannot be derived.
    fn build_program_accounts(&self, pubkey: &Pubkey) -> (r: Option<Vec<Account>>)
        requires
            self.wf(),
            self.programdata_fits(pubkey@),
        ensures
            r is None <==> (self.entry(pubkey@) matches Some(e) && e.loader_key == LOADER_V3@
                && programdata_address(pubkey@) is None),
            r matches Some(v) ==> crate::account::accounts_view(v@) == spec_program_accounts(
                pubkey@,
                self.entry(pubkey@),
            ),
    {
        let rent = Rent::default_rent();
        match self.find(pubkey) {
            None => Some(Vec::new()),
            Some(i) => {
                let entry = &self.entries[i];
                if entry.loader_key == Pubkey::new_from_array(NATIVE_LOADER) {
                    let data: Vec<u8> = vec![98u8, 117u8, 105u8, 108u8, 116u8, 105u8, 110u8];
                    let lamports = rent.minimum_balance(7);
                    let acct = Account {
                        address: *pubkey,
                        lamports,
                        data,
                        owner: Pubkey::new_from_array(NATIVE_LOADER),
                        executable: true,
                    };
                    let r = vec![acct];
                    proof {
                        assert(crate::account::accounts_view(r@) =~= spec_program_accounts(pubkey@, self.entry(pubkey@)));
                    }
                    Some(r)
                } else if entry.loader_key == Pubkey::new_from_array(LOADER_V2) {
                    let acct = Account {
                        address: *pubkey,
                        lamports: rent.minimum_balance(0),
                        data: Vec::new(),
                        owner: Pubkey::new_from_array(LOADER_V2),
                        executable: true,
                    };
                    let r = vec![acct];
                    proof {
                        assert(crate::account::accounts_view(r@) =~= spec_program_accounts(pubkey@, self.entry(pubkey@)));
                    }
                    Some(r)
                } else if entry.loader_key == Pubkey::new_from_array(LOADER_V3) {
                    let seeds: Vec<Vec<u8>> = vec![pubkey.to_vec()];
                    proof {
                        assert(seeds@.map_values(|s: Vec<u8>| s@) =~= seq![pubkey@]);
                    }
                    let pda = match try_find_program_address(&seeds, &Pubkey::new_from_array(LOADER_V3)) {
                        Some((k, _bump)) => k,
                        None => {
                            return None;
                        },
                    };
                    let program_data = program_state_bytes_of(&pda);
                    let program_account = Account {
                        address: *pubkey,
                        lamports: rent.minimum_balance(36),
                        data: program_data,
                        owner: Pubkey::new_from_array(LOADER_V3),
                        executable: true,
                    };
                    let mut programdata_bytes = programdata_header_of(0);
                    match &entry.elf {
                        Some(elf) => {
                            let mut j: usize = 0;
                            let ghost start = programdata_bytes@;
                            while j < elf.len()
                                invariant
                                    j <= elf@.len(),
                                    programdata_bytes@ == start + elf@.subrange(0, j as int),
                                decreases elf@.len() - j,
                            {
                                programdata_bytes.push(elf[j]);
                                j = j + 1;
                                proof {
                                    assert(programdata_bytes@ =~= start + elf@.subrange(0, j as int));
                                }
                            }
                            proof {
                                assert(elf@.subrange(0, elf@.len() as int) =~= elf@);
                            }
                        },
                        None => {
                            proof {
                                assert(programdata_bytes@ =~= programdata_bytes@ + Seq::<u8>::empty());
                            }
                        },
                    }
                    let len = programdata_bytes.len();
                    let programdata_account = Account {
                        address: pda,
                        lamports: rent.minimum_balance(len),
                        data: programdata_bytes,
                        owner: Pubkey::new_from_array(LOADER_V3),
                        executable: false,
                    };
                    let r = vec![program_account, programdata_account];
                    proof {
                        assert(crate::account::accounts_view(r@) =~= spec_program_accounts(pubkey@, self.entry(pubkey@)));
                    }
                    Some(r)
                } else {
                    let acct = Account {
                        address: *pubkey,
                        lamports: 0,
                        data: Vec::new(),
                        owner: Pubkey::new_from_array(SYSTEM_PROGRAM_ID),
                        executable: true,
                    };
                    let r = vec![acct];
                    proof {
                        assert(crate::account::accounts_view(r@) =~= spec_program_accounts(pubkey@, self.entry(pubkey@)));
                    }
                    Some(r)
                }
            },
        }
    }

    /// The accounts that stand for the program at `pubkey`: none for an
    /// unknown address; for a builtin, an executable account holding
    /// `builtin`; for a v2 program, an empty executable account; for an
    /// upgradeable program, its program account and its program-data account
    /// (header and image); for any other loader, an empty executable stub.
    pub fn maybe_create_program_accounts(&self, pubkey: &Pubkey) -> (r: Vec<Account>)
        requires
            self.wf(),
            self.accounts_buildable(pubkey@),
        ensures
            crate::account::accounts_view(r@) == spec_program_accounts(pubkey@, self.entry(pubkey@)),
    {
        match self.build_program_accounts(pubkey) {
            Some(v) => v,
            None => Vec::new(),
        }
    }

    /// The accounts that stand for the program at `pubkey`, or `None` when
    /// the program-data address of an upgradeable program cannot be derived.
    pub fn try_create_program_accounts(&self, pubkey: &Pubkey) -> (r: Option<Vec<Account>>)
        requires
            self.wf(),
            self.programdata_fits(pubkey@),
        ensures
            r is None <==> (self.entry(pubkey@) matches Some(e) && e.loader_key == LOADER_V3@
                && programdata_address(pubkey@) is None),
            r matches Some(v) ==> crate::account::accounts_view(v@) == spec_program_accounts(
                pubkey@,
                self.entry(pubkey@),
            ),
    {
        match self.find(pubkey) {
            Some(i) => {
                if self.entries[i].loader_key == Pubkey::new_from_array(LOADER_V3) {
                    if programdata_address_of(pubkey).is_none() {
                        return None;
                    }
                }
            },
            None => {},
        }
        Some(self.maybe_create_program_accounts(pubkey))
    }
}

/// The program-data address of the upgradeable program at `program_id`, if
/// one can be derived.
pub fn programdata_address_of(program_id: &Pubkey) -> (r: Option<Pubkey>)
    ensures
        match programdata_address(program_id@) {
            Some(k) => r matches Some(a) && a@ == k,
            None => r is None,
        },
{
    let seeds: Vec<Vec<u8>> = vec![program_id.to_vec()];
    proof {
        assert(seeds@.map_values(|s: Vec<u8>| s@) =~= seq![program_id@]);
    }
    match try_find_program_address(&seeds, &Pubkey::new_from_array(LOADER_V3)) {
        Some((k, _bump)) => Some(k),
        None => None,
    }
}

/// Calls `bincode::serialize` on `UpgradeableLoaderState::Program` with this
/// program-data address: the variant tag 2 as a little-endian `u32`, then the
/// address's 32 bytes.
#[verifier::external_body]
fn program_state_bytes_of(programdata_address: &Pubkey) -> (r: Vec<u8>)
    ensures
        r@ == program_state_bytes(programdata_address@),
{
    let state = solana_loader_v3_interface::state::UpgradeableLoaderState::Program {
        programdata_address: solana_pubkey::Pubkey::new_from_array(programdata_address.bytes),
    };
    bincode::serialize(&state).unwrap()
}

/// Calls `bincode::serialize` on `UpgradeableLoaderState::ProgramData` with
/// this slot and no upgrade authority: the variant tag 3 as a little-endian
/// `u32`, the slot as a little-endian `u64`, and the `None` tag 0.
#[verifier::external_body]
fn programdata_header_of(slot: u64) -> (r: Vec<u8>)
    ensures
        r@ == programdata_header_bytes(slot),
{
    let state = solana_loader_v3_interface::state::UpgradeableLoaderState::ProgramData {
        slot,
        upgrade_authority_address: None,
    };
    bincode::serialize(&state).unwrap()
}

// ---------------------------------------------------------------------------
// Laws over sequences of registrations
// ---------------------------------------------------------------------------

/// One registration: a program, its loader and its image.
pub struct ProgramAdd {
    pub program_id: Seq<u8>,
    pub loader_key: Seq<u8>,
    pub elf: Seq<u8>,
}

/// The program registered at `k` after the builtins and then `adds`, in
/// order: the last registration of `k`, else the builtin there.
pub open spec fn entry_after(adds: Seq<ProgramAdd>, k: Seq<u8>) -> Option<ProgramEntryView>
    decreases adds.len(),
{
    if adds.len() == 0 {
        builtin_entry(k)
    } else if adds.last().program_id == k {
        Some(ProgramEntryView { loader_key: adds.last().loader_key, elf: Some(adds.last().elf) })
    } else {
        entry_after(adds.drop_last(), k)
    }
}

/// Registering a program moves the registry one step along: a registry that
/// holds the builtins and `adds`, after `add_program` (whose `ensures` are
/// the `requires` here), holds the builtins and `adds` followed by `a`.
pub proof fn law_add_program_step(before: ProgramCache, after: ProgramCache, adds: Seq<ProgramAdd>, a: ProgramAdd)
    requires
        forall|k: Seq<u8>| #[trigger] before.entry(k) == entry_after(adds, k),
        after.entry(a.program_id) == Some(ProgramEntryView { loader_key: a.loader_key, elf: Some(a.elf) }),
        forall|k: Seq<u8>| k != a.program_id ==> #[trigger] after.entry(k) == before.entry(k),
    ensures
        forall|k: Seq<u8>| #[trigger] after.entry(k) == entry_after(adds.push(a), k),
{
    assert forall|k: Seq<u8>| #[trigger] after.entry(k) == entry_after(adds.push(a), k) by {
        assert(adds.push(a).drop_last() =~= adds);
    }
}

/// After the builtins and any registrations, an address has program
/// accounts exactly when it is a builtin (the system program or one of the
/// two BPF loaders) or was registered; they then start with an executable
/// account at that address, and are at most two.
pub proof fn law_program_accounts_after_adds(adds: Seq<ProgramAdd>, k: Seq<u8>)
    ensures
        spec_program_accounts(k, entry_after(adds, k)).len() > 0 <==> (k == SYSTEM_PROGRAM_ID@ || k == LOADER_V2@
            || k == LOADER_V3@ || exists|i: int| 0 <= i < adds.len() && (#[trigger] adds[i]).program_id == k),
        spec_program_accounts(k, entry_after(adds, k)).len() > 0 ==> {
            let accs = spec_program_accounts(k, entry_after(adds, k));
            &&& accs[0].address == k
            &&& accs[0].executable
            &&& accs.len() <= 2
        },
    decreases adds.len(),
{
    if adds.len() > 0 {
        let init = adds.drop_last();
        law_program_accounts_after_adds(init, k);
        if adds.last().program_id == k {
            assert(adds[adds.len() - 1].program_id == k);
        } else {
            assert forall|i: int| 0 <= i < adds.len() && (#[trigger] adds[i]).program_id == k implies 0 <= i < init.len()
                && init[i].program_id == k by {
                assert(i != adds.len() - 1);
            }
            assert forall|i: int| 0 <= i < init.len() && (#[trigger] init[i]).program_id == k implies adds[i].program_id == k by {
            }
        }
    }
}

/// The accounts of a program registered with an image: under the v2 loader
/// one executable account with no data; under the upgradeable loader, when
/// its program-data address can be derived, the program account holding that
/// address and the program-data account holding the header (slot 0, no
/// upgrade authority) and the image, both rent-exempt under the default rent
/// and owned by the loader.
pub proof fn law_registered_program_accounts(key: Seq<u8>, loader_key: Seq<u8>, elf: Seq<u8>)
    ensures
        loader_key == LOADER_V2@ ==> spec_program_accounts(key, Some(ProgramEntryView { loader_key, elf: Some(elf) }))
            == seq![
            AccountView {
                address: key,
                lamports: default_minimum_balance(0),
                data: Seq::empty(),
                owner: LOADER_V2@,
                executable: true,
            },
        ],
        loader_key == LOADER_V3@ ==> (programdata_address(key) matches Some(pd) ==> spec_program_accounts(
            key,
            Some(ProgramEntryView { loader_key, elf: Some(elf) }),
        ) == seq![
            AccountView {
                address: key,
                lamports: default_minimum_balance(36),
                data: program_state_bytes(pd),
                owner: LOADER_V3@,
                executable: true,
            },
            AccountView {
                address: pd,
                lamports: default_minimum_balance((programdata_header_bytes(0) + elf).len() as int),
                data: programdata_header_bytes(0) + elf,
                owner: LOADER_V3@,
                executable: false,
            },
        ]),
{
    assert(LOADER_V2@ != NATIVE_LOADER@) by {
        assert(LOADER_V2@[0] != NATIVE_LOADER@[0]);
    }
    assert(LOADER_V3@ != NATIVE_LOADER@) by {
        assert(LOADER_V3@[0] != NATIVE_LOADER@[0]);
    }
    assert(LOADER_V3@ != LOADER_V2@) by {
        assert(LOADER_V3@[11] != LOADER_V2@[11]);
    }
}

} // verus!
