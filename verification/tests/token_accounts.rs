use quasar_svm::ids::{SPL_ASSOCIATED_TOKEN_PROGRAM_ID, SPL_TOKEN_2022_PROGRAM_ID, SPL_TOKEN_PROGRAM_ID, SYSTEM_PROGRAM_ID};
use quasar_svm::pubkey::Pubkey;
use quasar_svm::token::{
    create_keyed_associated_token_account, create_keyed_associated_token_account_with_program,
    create_keyed_mint_account, create_keyed_mint_account_with_program, create_keyed_system_account,
    create_keyed_token_account, create_keyed_token_account_with_program, get_associated_token_address,
    try_create_keyed_associated_token_account, try_get_associated_token_address, AccountState, Mint,
    TokenAccount, MINT_LEN, TOKEN_ACCOUNT_LEN,
};
use spl_token::solana_program::program_option::COption;
use spl_token::solana_program::program_pack::Pack;

fn pk(b: u8) -> Pubkey {
    Pubkey::new_from_array([b; 32])
}

fn sdk(k: &Pubkey) -> solana_pubkey::Pubkey {
    solana_pubkey::Pubkey::new_from_array(k.bytes)
}

fn coption(k: Option<Pubkey>) -> COption<solana_pubkey::Pubkey> {
    match k {
        Some(k) => COption::Some(sdk(&k)),
        None => COption::None,
    }
}

fn sample_mint() -> Mint {
    Mint { mint_authority: Some(pk(5)), supply: 10_000, decimals: 6, is_initialized: true, freeze_authority: None }
}

fn sample_token() -> TokenAccount {
    TokenAccount {
        mint: pk(3),
        owner: pk(4),
        amount: 5_000,
        delegate: Some(pk(6)),
        state: AccountState::Frozen,
        is_native: Some(2_039_280),
        delegated_amount: 17,
        close_authority: None,
    }
}

fn spl_mint(m: &Mint) -> spl_token::state::Mint {
    spl_token::state::Mint {
        mint_authority: coption(m.mint_authority),
        supply: m.supply,
        decimals: m.decimals,
        is_initialized: m.is_initialized,
        freeze_authority: coption(m.freeze_authority),
    }
}

fn spl_token_account(t: &TokenAccount) -> spl_token::state::Account {
    spl_token::state::Account {
        mint: sdk(&t.mint),
        owner: sdk(&t.owner),
        amount: t.amount,
        delegate: coption(t.delegate),
        state: match t.state {
            AccountState::Uninitialized => spl_token::state::AccountState::Uninitialized,
            AccountState::Initialized => spl_token::state::AccountState::Initialized,
            AccountState::Frozen => spl_token::state::AccountState::Frozen,
        },
        is_native: match t.is_native {
            Some(v) => COption::Some(v),
            None => COption::None,
        },
        delegated_amount: t.delegated_amount,
        close_authority: coption(t.close_authority),
    }
}

#[test]
fn layout_lengths_match_spl() {
    assert_eq!(MINT_LEN, spl_token::state::Mint::LEN);
    assert_eq!(TOKEN_ACCOUNT_LEN, spl_token::state::Account::LEN);
}

#[test]
fn mint_packs_like_spl() {
    let m = sample_mint();
    let mut expected = vec![0u8; 82];
    spl_token::state::Mint::pack(spl_mint(&m), &mut expected).unwrap();
    assert_eq!(m.pack_new(), expected);
    // An absent authority leaves the bytes behind its tag as they were.
    let mut ours = vec![0xAB; 82];
    let mut theirs = vec![0xAB; 82];
    m.pack_into(&mut ours);
    spl_token::state::Mint::pack(spl_mint(&m), &mut theirs).unwrap();
    assert_eq!(ours, theirs);
    assert_eq!(&ours[50..82], &[0xAB; 32][..]);
}

#[test]
fn token_account_packs_like_spl() {
    let t = sample_token();
    let mut expected = vec![0u8; 165];
    spl_token::state::Account::pack(spl_token_account(&t), &mut expected).unwrap();
    assert_eq!(t.pack_new(), expected);
    let mut ours = vec![0x11; 165];
    let mut theirs = vec![0x11; 165];
    t.pack_into(&mut ours);
    spl_token::state::Account::pack(spl_token_account(&t), &mut theirs).unwrap();
    assert_eq!(ours, theirs);
}

#[test]
fn mint_unpacks_what_was_packed() {
    let m = sample_mint();
    let u = Mint::unpack(&m.pack_new()).unwrap();
    assert_eq!(u.mint_authority.map(|k| k.bytes), Some([5; 32]));
    assert_eq!(u.supply, 10_000);
    assert_eq!(u.decimals, 6);
    assert!(u.is_initialized);
    assert!(u.freeze_authority.is_none());
}

#[test]
fn token_account_unpacks_what_was_packed() {
    let t = sample_token();
    let u = TokenAccount::unpack(&t.pack_new()).unwrap();
    assert_eq!(u.mint.bytes, [3; 32]);
    assert_eq!(u.owner.bytes, [4; 32]);
    assert_eq!(u.amount, 5_000);
    assert_eq!(u.delegate.map(|k| k.bytes), Some([6; 32]));
    assert_eq!(u.state, AccountState::Frozen);
    assert_eq!(u.is_native, Some(2_039_280));
    assert_eq!(u.delegated_amount, 17);
    assert!(u.close_authority.is_none());
}

#[test]
fn uninitialized_or_malformed_data_does_not_unpack() {
    assert!(Mint::unpack(&[0u8; 82]).is_none());
    assert!(Mint::unpack(&[0u8; 81]).is_none());
    assert!(TokenAccount::unpack(&[0u8; 165]).is_none());
    assert!(TokenAccount::unpack(&[0u8; 166]).is_none());
    let mut bad_tag = sample_mint().pack_new();
    bad_tag[0] = 2;
    assert!(Mint::unpack(&bad_tag).is_none());
    assert!(spl_token::state::Mint::unpack(&bad_tag).is_err());
    let mut bad_state = sample_token().pack_new();
    bad_state[108] = 3;
    assert!(TokenAccount::unpack(&bad_state).is_none());
    assert!(spl_token::state::Account::unpack(&bad_state).is_err());
}

#[test]
fn amount_read_back_after_repacking() {
    let mut data = sample_token().pack_new();
    let t = TokenAccount::unpack(&data).unwrap();
    TokenAccount { amount: 42, ..t }.pack_into(&mut data);
    let back = TokenAccount::unpack(&data).unwrap();
    assert_eq!(back.amount, 42);
    assert_eq!(back.delegated_amount, 17);
    assert_eq!(back.state, AccountState::Frozen);
    assert_eq!(spl_token::state::Account::unpack_unchecked(&data).unwrap().amount, 42);
}

#[test]
fn supply_read_back_after_repacking() {
    let mut data = sample_mint().pack_new();
    let m = Mint::unpack(&data).unwrap();
    Mint { supply: 1, ..m }.pack_into(&mut data);
    let back = Mint::unpack(&data).unwrap();
    assert_eq!(back.supply, 1);
    assert_eq!(back.decimals, 6);
    assert_eq!(spl_token::state::Mint::unpack(&data).unwrap().supply, 1);
}

#[test]
fn system_account_factory() {
    let a = create_keyed_system_account(&pk(1), 1_000_000_000);
    assert_eq!(a.address.bytes, [1; 32]);
    assert_eq!(a.lamports, 1_000_000_000);
    assert!(a.data.is_empty());
    assert_eq!(a.owner.bytes, SYSTEM_PROGRAM_ID);
    assert!(!a.executable);
}

#[test]
fn mint_account_factories_are_rent_exempt() {
    let a = create_keyed_mint_account(&pk(2), &sample_mint());
    assert_eq!(a.address.bytes, [2; 32]);
    assert_eq!(a.lamports, 1_461_600);
    assert_eq!(a.lamports, solana_rent::Rent::default().minimum_balance(82));
    assert_eq!(a.owner.bytes, SPL_TOKEN_PROGRAM_ID);
    assert_eq!(a.data, sample_mint().pack_new());
    let b = create_keyed_mint_account_with_program(&pk(2), &sample_mint(), &Pubkey::new_from_array(SPL_TOKEN_2022_PROGRAM_ID));
    assert_eq!(b.owner.bytes, SPL_TOKEN_2022_PROGRAM_ID);
    assert_eq!(b.data, a.data);
}

#[test]
fn token_account_factories_are_rent_exempt() {
    let a = create_keyed_token_account(&pk(7), &sample_token());
    assert_eq!(a.lamports, 2_039_280);
    assert_eq!(a.lamports, solana_rent::Rent::default().minimum_balance(165));
    assert_eq!(a.owner.bytes, SPL_TOKEN_PROGRAM_ID);
    assert_eq!(a.data, sample_token().pack_new());
    let b = create_keyed_token_account_with_program(&pk(7), &sample_token(), &Pubkey::new_from_array(SPL_TOKEN_2022_PROGRAM_ID));
    assert_eq!(b.owner.bytes, SPL_TOKEN_2022_PROGRAM_ID);
}

#[test]
fn associated_address_is_the_program_address() {
    let wallet = pk(10);
    let mint = pk(11);
    for program in [SPL_TOKEN_PROGRAM_ID, SPL_TOKEN_2022_PROGRAM_ID] {
        let (expected, _) = solana_pubkey::Pubkey::find_program_address(
            &[&wallet.bytes, &program, &mint.bytes],
            &solana_pubkey::Pubkey::new_from_array(SPL_ASSOCIATED_TOKEN_PROGRAM_ID),
        );
        let p = Pubkey::new_from_array(program);
        assert_eq!(get_associated_token_address(&wallet, &mint, &p).bytes, expected.to_bytes());
        assert_eq!(try_get_associated_token_address(&wallet, &mint, &p).unwrap().bytes, expected.to_bytes());
    }
}

#[test]
fn associated_token_account_factory() {
    let wallet = pk(10);
    let mint = pk(11);
    let a = create_keyed_associated_token_account(&wallet, &mint, 5_000);
    let ata = get_associated_token_address(&wallet, &mint, &Pubkey::new_from_array(SPL_TOKEN_PROGRAM_ID));
    assert_eq!(a.address.bytes, ata.bytes);
    assert_eq!(a.owner.bytes, SPL_TOKEN_PROGRAM_ID);
    assert_eq!(a.lamports, 2_039_280);
    let t = TokenAccount::unpack(&a.data).unwrap();
    assert_eq!(t.mint.bytes, mint.bytes);
    assert_eq!(t.owner.bytes, wallet.bytes);
    assert_eq!(t.amount, 5_000);
    assert_eq!(t.state, AccountState::Initialized);
    assert!(t.delegate.is_none() && t.is_native.is_none() && t.close_authority.is_none());
    assert_eq!(t.delegated_amount, 0);
    let b = try_create_keyed_associated_token_account(&wallet, &mint, 5_000).unwrap();
    assert_eq!(b.data, a.data);
    let p2022 = Pubkey::new_from_array(SPL_TOKEN_2022_PROGRAM_ID);
    let c = create_keyed_associated_token_account_with_program(&wallet, &mint, 1, &p2022);
    assert_eq!(c.owner.bytes, SPL_TOKEN_2022_PROGRAM_ID);
    assert_eq!(c.address.bytes, get_associated_token_address(&wallet, &mint, &p2022).bytes);
    assert_ne!(c.address.bytes, a.address.bytes);
}
