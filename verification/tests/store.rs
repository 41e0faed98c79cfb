use quasar_svm::account::Account;
use quasar_svm::ids::{SPL_TOKEN_PROGRAM_ID, SYSTEM_PROGRAM_ID};
use quasar_svm::loader_keys::{LOADER_V2, LOADER_V3};
use quasar_svm::pubkey::Pubkey;
use quasar_svm::svm::{BundledPrograms, QuasarSvm, QuasarSvmConfig};
use quasar_svm::token::{create_keyed_mint_account, create_keyed_token_account, AccountState, Mint, TokenAccount};

fn pk(b: u8) -> Pubkey {
    Pubkey::new_from_array([b; 32])
}

fn acct(b: u8, lamports: u64, data: Vec<u8>) -> Account {
    Account { address: pk(b), lamports, data, owner: pk(200), executable: false }
}

fn token(amount: u64) -> TokenAccount {
    TokenAccount {
        mint: pk(50),
        owner: pk(51),
        amount,
        delegate: None,
        state: AccountState::Initialized,
        is_native: None,
        delegated_amount: 0,
        close_authority: None,
    }
}

#[test]
fn new_svm_has_no_accounts() {
    let svm = QuasarSvm::new();
    assert!(svm.accounts.is_empty());
    assert!(svm.get_account(&pk(1)).is_none());
    assert_eq!(svm.sysvars.clock.slot, 0);
}

#[test]
fn read_after_write_gives_back_the_account() {
    let mut svm = QuasarSvm::new();
    svm.set_account(acct(1, 10, vec![1, 2, 3]));
    svm.set_account(acct(2, 20, vec![]));
    let a = svm.get_account(&pk(1)).unwrap();
    assert_eq!(a.lamports, 10);
    assert_eq!(a.data, vec![1, 2, 3]);
    assert_eq!(a.owner.bytes, [200; 32]);
    // Writing again replaces, and leaves the other address alone.
    svm.set_account(acct(1, 11, vec![9]));
    assert_eq!(svm.accounts.len(), 2);
    assert_eq!(svm.get_account(&pk(1)).unwrap().lamports, 11);
    assert_eq!(svm.get_account(&pk(1)).unwrap().data, vec![9]);
    assert_eq!(svm.get_account(&pk(2)).unwrap().lamports, 20);
    assert!(svm.get_account(&pk(3)).is_none());
}

#[test]
fn airdrop_creates_a_system_account() {
    let mut svm = QuasarSvm::new();
    svm.airdrop(&pk(4), 1_000);
    let a = svm.get_account(&pk(4)).unwrap();
    assert_eq!(a.lamports, 1_000);
    assert!(a.data.is_empty());
    assert_eq!(a.owner.bytes, SYSTEM_PROGRAM_ID);
    assert!(!a.executable);
}

#[test]
fn airdrop_adds_to_an_existing_account() {
    let mut svm = QuasarSvm::new();
    svm.set_account(Account { address: pk(4), lamports: 5, data: vec![7], owner: pk(9), executable: true });
    svm.airdrop(&pk(4), 1_000);
    let a = svm.get_account(&pk(4)).unwrap();
    assert_eq!(a.lamports, 1_005);
    assert_eq!(a.data, vec![7]);
    assert_eq!(a.owner.bytes, [9; 32]);
    assert!(a.executable);
}

#[test]
fn create_account_is_rent_exempt_and_zeroed() {
    let mut svm = QuasarSvm::new();
    svm.airdrop(&pk(6), 1);
    svm.create_account(&pk(6), 100, &pk(7));
    let a = svm.get_account(&pk(6)).unwrap();
    assert_eq!(a.lamports, solana_rent::Rent::default().minimum_balance(100));
    assert_eq!(a.lamports, 1_586_880);
    assert_eq!(a.data, vec![0u8; 100]);
    assert_eq!(a.owner.bytes, [7; 32]);
    assert!(!a.executable);
}

#[test]
fn token_balance_is_read_back() {
    let mut svm = QuasarSvm::new();
    svm.set_account(create_keyed_token_account(&pk(8), &token(5)));
    svm.set_token_balance(&pk(8), 77);
    let a = svm.get_account(&pk(8)).unwrap();
    let t = TokenAccount::unpack(&a.data).unwrap();
    assert_eq!(t.amount, 77);
    assert_eq!(t.mint.bytes, [50; 32]);
    assert_eq!(t.owner.bytes, [51; 32]);
    assert_eq!(a.owner.bytes, SPL_TOKEN_PROGRAM_ID);
}

#[test]
fn mint_supply_is_read_back() {
    let mut svm = QuasarSvm::new();
    let m = Mint { mint_authority: None, supply: 3, decimals: 9, is_initialized: true, freeze_authority: None };
    svm.set_account(create_keyed_mint_account(&pk(9), &m));
    svm.set_mint_supply(&pk(9), 1_000_000);
    let back = Mint::unpack(&svm.get_account(&pk(9)).unwrap().data).unwrap();
    assert_eq!(back.supply, 1_000_000);
    assert_eq!(back.decimals, 9);
}

#[test]
fn warping_moves_the_clock() {
    let mut svm = QuasarSvm::new();
    svm.warp_to_timestamp(1_700_000_000);
    assert_eq!(svm.sysvars.clock.unix_timestamp, 1_700_000_000);
    assert_eq!(svm.sysvars.clock.slot, 0);
    svm.warp_to_slot(500);
    assert_eq!(svm.sysvars.clock.slot, 500);
}

#[test]
fn builders_compose() {
    let svm = QuasarSvm::new()
        .with_system_program()
        .with_account(acct(1, 10, vec![]))
        .with_airdrop(&pk(1), 5)
        .with_create_account(&pk(2), 0, &pk(3))
        .with_slot(42);
    assert_eq!(svm.get_account(&pk(1)).unwrap().lamports, 15);
    assert_eq!(svm.get_account(&pk(2)).unwrap().lamports, 890_880);
    assert_eq!(svm.get_account(&pk(2)).unwrap().owner.bytes, [3; 32]);
    assert_eq!(svm.sysvars.clock.slot, 42);
}

#[test]
fn programs_register_under_their_loaders() {
    let elf = vec![0x7f, b'E', b'L', b'F'];
    let svm = QuasarSvm::new().with_program(&pk(30), &elf).with_program_loader(&pk(31), &Pubkey::new_from_array(LOADER_V2), &elf);
    let v3 = svm.program_cache.maybe_create_program_accounts(&pk(30));
    assert_eq!(v3.len(), 2);
    assert_eq!(v3[0].owner.bytes, LOADER_V3);
    assert!(v3[0].executable);
    let v2 = svm.program_cache.maybe_create_program_accounts(&pk(31));
    assert_eq!(v2.len(), 1);
    assert_eq!(v2[0].owner.bytes, LOADER_V2);
    assert!(v2[0].data.is_empty());
    assert_eq!(v2[0].lamports, 890_880);
    assert!(svm.accounts.is_empty());
}

#[test]
fn config_selects_the_bundled_programs() {
    let bundled = BundledPrograms { spl_token: vec![1], spl_token_2022: vec![2], spl_associated_token: vec![3] };
    let all = QuasarSvm::new_with_config(QuasarSvmConfig::new(), &bundled);
    let token = all.program_cache.maybe_create_program_accounts(&Pubkey::new_from_array(SPL_TOKEN_PROGRAM_ID));
    assert_eq!(token.len(), 1);
    assert_eq!(token[0].owner.bytes, LOADER_V2);
    let none = QuasarSvm::new_with_config(
        QuasarSvmConfig { token: false, token_2022: false, associated_token: false },
        &bundled,
    );
    assert!(none.program_cache.maybe_create_program_accounts(&Pubkey::new_from_array(SPL_TOKEN_PROGRAM_ID)).is_empty());
}

#[test]
fn explicit_accounts_take_priority_when_merging() {
    let mut svm = QuasarSvm::new();
    svm.set_account(acct(1, 1, vec![]));
    svm.set_account(acct(2, 2, vec![]));
    let merged = svm.merge_accounts(&vec![acct(1, 5, vec![]), acct(3, 3, vec![])]);
    let got: Vec<(u8, u64)> = merged.iter().map(|a| (a.address.bytes[0], a.lamports)).collect();
    assert_eq!(got, vec![(2, 2), (1, 5), (3, 3)]);
}

#[test]
fn committing_keeps_the_last_account_per_address() {
    let mut svm = QuasarSvm::new();
    svm.set_account(acct(1, 1, vec![]));
    svm.commit_accounts(&vec![acct(2, 2, vec![]), acct(1, 10, vec![]), acct(2, 20, vec![])]);
    assert_eq!(svm.accounts.len(), 2);
    assert_eq!(svm.get_account(&pk(1)).unwrap().lamports, 10);
    assert_eq!(svm.get_account(&pk(2)).unwrap().lamports, 20);
}

#[test]
fn warping_back_keeps_the_slot_hashes() {
    let mut svm = QuasarSvm::new();
    svm.warp_to_slot(500);
    assert_eq!(svm.sysvars.slot_hashes[0].0, 499);
    let before: Vec<u64> = svm.sysvars.slot_hashes.iter().map(|h| h.0).collect();
    svm.warp_to_slot(100);
    let after: Vec<u64> = svm.sysvars.slot_hashes.iter().map(|h| h.0).collect();
    assert_eq!(before, after);
    assert_eq!(svm.sysvars.clock.slot, 100);
    assert_eq!(svm.sysvars.clock.epoch, 0);
}

#[test]
fn with_slot_moves_the_whole_clock() {
    let svm = QuasarSvm::new().with_program(&pk(30), &[1, 2, 3]);
    let mut warped = QuasarSvm::new().with_program(&pk(30), &[1, 2, 3]);
    warped.warp_to_timestamp(99);
    let warped = warped.with_slot(1_000_000);
    assert_eq!(warped.sysvars.clock.slot, 1_000_000);
    assert_eq!(warped.sysvars.clock.epoch, 2);
    assert_eq!(warped.sysvars.clock.leader_schedule_epoch, 3);
    assert_eq!(warped.sysvars.clock.unix_timestamp, 0);
    assert_eq!(warped.sysvars.slot_hashes[0].0, 999_999);
    assert_eq!(warped.sysvars.slot_hashes.len(), 512);
    assert_eq!(
        warped.program_cache.maybe_create_program_accounts(&pk(30)).len(),
        svm.program_cache.maybe_create_program_accounts(&pk(30)).len()
    );
}
