use quasar_svm::ids::{SPL_TOKEN_2022_PROGRAM_ID, SPL_TOKEN_PROGRAM_ID, SYSTEM_PROGRAM_ID};
use quasar_svm::pubkey::Pubkey;
use quasar_svm::token::{get_associated_token_address, TokenAccount};
use quasar_svm::user::{User, UserToken};

fn pk(b: u8) -> Pubkey {
    Pubkey::new_from_array([b; 32])
}

#[test]
fn user_token_constructors() {
    let t = UserToken::spl(&pk(1), 5);
    assert_eq!(t.mint.bytes, [1; 32]);
    assert_eq!(t.amount, 5);
    assert_eq!(t.token_program_id.bytes, SPL_TOKEN_PROGRAM_ID);
    assert_eq!(UserToken::spl_2022(&pk(1), 5).token_program_id.bytes, SPL_TOKEN_2022_PROGRAM_ID);
    assert_eq!(UserToken::new(&pk(1), 5, &pk(9)).token_program_id.bytes, [9; 32]);
}

#[test]
fn user_with_pubkey_holds_its_accounts() {
    let wallet = pk(20);
    let tokens = vec![UserToken::spl(&pk(21), 5_000), UserToken::spl_2022(&pk(22), 100)];
    let u = User::new_with_pubkey(&wallet, 1_000_000_000, &tokens).unwrap();
    assert_eq!(u.pubkey.bytes, wallet.bytes);
    let accounts = u.accounts();
    assert_eq!(accounts.len(), 3);
    assert_eq!(accounts[0].address.bytes, wallet.bytes);
    assert_eq!(accounts[0].lamports, 1_000_000_000);
    assert_eq!(accounts[0].owner.bytes, SYSTEM_PROGRAM_ID);
    let ata = get_associated_token_address(&wallet, &pk(21), &Pubkey::new_from_array(SPL_TOKEN_PROGRAM_ID));
    assert_eq!(accounts[1].address.bytes, ata.bytes);
    assert_eq!(accounts[1].owner.bytes, SPL_TOKEN_PROGRAM_ID);
    let t = TokenAccount::unpack(&accounts[1].data).unwrap();
    assert_eq!(t.owner.bytes, wallet.bytes);
    assert_eq!(t.mint.bytes, [21; 32]);
    assert_eq!(t.amount, 5_000);
    assert_eq!(accounts[2].owner.bytes, SPL_TOKEN_2022_PROGRAM_ID);
    assert_eq!(TokenAccount::unpack(&accounts[2].data).unwrap().amount, 100);
}

#[test]
fn ata_is_the_held_account_or_the_derived_one() {
    let wallet = pk(30);
    let u = User::new_with_pubkey(&wallet, 1, &vec![UserToken::spl_2022(&pk(31), 1)]).unwrap();
    let held = get_associated_token_address(&wallet, &pk(31), &Pubkey::new_from_array(SPL_TOKEN_2022_PROGRAM_ID));
    assert_eq!(u.ata(&pk(31)).bytes, held.bytes);
    assert_eq!(u.try_ata(&pk(31)).unwrap().bytes, held.bytes);
    let derived = get_associated_token_address(&wallet, &pk(32), &Pubkey::new_from_array(SPL_TOKEN_PROGRAM_ID));
    assert_eq!(u.ata(&pk(32)).bytes, derived.bytes);
    assert_eq!(u.try_ata(&pk(32)).unwrap().bytes, derived.bytes);
}

#[test]
fn sol_only_user() {
    let u = User::new(7, &vec![]).unwrap();
    let accounts = u.accounts();
    assert_eq!(accounts.len(), 1);
    assert_eq!(accounts[0].lamports, 7);
    assert_eq!(accounts[0].address.bytes, u.pubkey.bytes);
    let other = User::new(7, &vec![]).unwrap();
    assert_ne!(u.pubkey.bytes, other.pubkey.bytes);
}
