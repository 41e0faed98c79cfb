//! SPL Token mints and token accounts: their packed layouts and factories for
//! pre-initialized accounts.
use vstd::prelude::*;
use crate::account::{Account, AccountView};
use crate::ids::{SPL_ASSOCIATED_TOKEN_PROGRAM_ID, SPL_TOKEN_PROGRAM_ID, SYSTEM_PROGRAM_ID};
use crate::program_cache::default_minimum_balance;
use crate::pubkey::{Pubkey, spec_find_program_address, try_find_program_address};
use crate::rent::Rent;
use crate::wire::{bool_byte, le_u64, u64_bytes};
use solana_pubkey::Pubkey as Address;
use spl_token::solana_program::program_pack::Pack;
use spl_token::state::{Account as SplAccount, AccountState as SplAccountState, Mint as SplMint};

verus! {

/// The length of a packed mint.
pub const MINT_LEN: usize = 82;

/// The length of a packed token account.
pub const TOKEN_ACCOUNT_LEN: usize = 165;

/// A token mint.
#[derive(Clone, Copy, Debug)]
pub struct Mint {
    pub mint_authority: Option<Pubkey>,
    pub supply: u64,
    pub decimals: u8,
    pub is_initialized: bool,
    pub freeze_authority: Option<Pubkey>,
}

/// The state of a token account.
#[derive(Clone, Copy, Debug, PartialEq, Eq, Structural)]
pub enum AccountState {
    Uninitialized,
    Initialized,
    Frozen,
}

/// A token account.
#[derive(Clone, Copy, Debug)]
pub struct TokenAccount {
    pub mint: Pubkey,
    pub owner: Pubkey,
    pub amount: u64,
    pub delegate: Option<Pubkey>,
    pub state: AccountState,
    pub is_native: Option<u64>,
    pub delegated_amount: u64,
    pub close_authority: Option<Pubkey>,
}

/// The view of an optional address.
pub open spec fn key_view(k: Option<Pubkey>) -> Option<Seq<u8>> {
    match k {
        Some(k) => Some(k@),
        None => None,
    }
}

/// The mathematical value of a [`Mint`].
pub struct MintView {
    pub mint_authority: Option<Seq<u8>>,
    pub supply: u64,
    pub decimals: u8,
    pub is_initialized: bool,
    pub freeze_authority: Option<Seq<u8>>,
}

impl View for Mint {
    type V = MintView;

    open spec fn view(&self) -> MintView {
        MintView {
            mint_authority: key_view(self.mint_authority),
            supply: self.supply,
            decimals: self.decimals,
            is_initialized: self.is_initialized,
            freeze_authority: key_view(self.freeze_authority),
        }
    }
}

/// The mathematical value of a [`TokenAccount`].
pub struct TokenAccountView {
    pub mint: Seq<u8>,
    pub owner: Seq<u8>,
    pub amount: u64,
    pub delegate: Option<Seq<u8>>,
    pub state: AccountState,
    pub is_native: Option<u64>,
    pub delegated_amount: u64,
    pub close_authority: Option<Seq<u8>>,
}

impl View for TokenAccount {
    type V = TokenAccountView;

    open spec fn view(&self) -> TokenAccountView {
        TokenAccountView {
            mint: self.mint@,
            owner: self.owner@,
            amount: self.amount,
            delegate: key_view(self.delegate),
            state: self.state,
            is_native: self.is_native,
            delegated_amount: self.delegated_amount,
            close_authority: key_view(self.close_authority),
        }
    }
}

// ---------------------------------------------------------------------------
// Layouts
// ---------------------------------------------------------------------------

/// An optional address in 36 bytes: a four-byte tag (1 for present, 0 for
/// absent) and the address; an absent address leaves the 32 bytes `body` as
/// they were.
pub open spec fn coption_key_bytes(k: Option<Seq<u8>>, body: Seq<u8>) -> Seq<u8> {
    match k {
        Some(k) => seq![1u8, 0u8, 0u8, 0u8] + k,
        None => seq![0u8, 0u8, 0u8, 0u8] + body,
    }
}

/// An optional amount in 12 bytes: the tag and the amount, little-endian.
pub open spec fn coption_u64_bytes(v: Option<u64>, body: Seq<u8>) -> Seq<u8> {
    match v {
        Some(v) => seq![1u8, 0u8, 0u8, 0u8] + u64_bytes(v),
        None => seq![0u8, 0u8, 0u8, 0u8] + body,
    }
}

/// Whether the four bytes at `at` are a valid option tag.
pub open spec fn tag_valid(s: Seq<u8>, at: int) -> bool {
    s[at + 1] == 0 && s[at + 2] == 0 && s[at + 3] == 0 && (s[at] == 0 || s[at] == 1)
}

/// The optional address stored at `at`.
pub open spec fn coption_key_at(s: Seq<u8>, at: int) -> Option<Seq<u8>> {
    if s[at] == 1 {
        Some(s.subrange(at + 4, at + 36))
    } else {
        None
    }
}

/// The optional amount stored at `at`.
pub open spec fn coption_u64_at(s: Seq<u8>, at: int) -> Option<u64> {
    if s[at] == 1 {
        Some(le_u64(s, at + 4))
    } else {
        None
    }
}

/// The 82 bytes `dst` with the mint packed into them.
pub open spec fn pack_mint_into(m: MintView, dst: Seq<u8>) -> Seq<u8> {
    coption_key_bytes(m.mint_authority, dst.subrange(4, 36)) + u64_bytes(m.supply) + seq![
        m.decimals,
        bool_byte(m.is_initialized),
    ] + coption_key_bytes(m.freeze_authority, dst.subrange(50, 82))
}

/// The mint that 82 bytes hold, if they hold an initialized one.
pub open spec fn unpack_mint(s: Seq<u8>) -> Option<MintView> {
    if s.len() == 82 && tag_valid(s, 0) && tag_valid(s, 46) && s[45] == 1 {
        Some(
            MintView {
                mint_authority: coption_key_at(s, 0),
                supply: le_u64(s, 36),
                decimals: s[44],
                is_initialized: true,
                freeze_authority: coption_key_at(s, 46),
            },
        )
    } else {
        None
    }
}

/// The byte of a token account state.
pub open spec fn state_byte(st: AccountState) -> u8 {
    match st {
        AccountState::Uninitialized => 0u8,
        AccountState::Initialized => 1u8,
        AccountState::Frozen => 2u8,
    }
}

/// The 165 bytes `dst` with the token account packed into them.
pub open spec fn pack_token_account_into(t: TokenAccountView, dst: Seq<u8>) -> Seq<u8> {
    t.mint + t.owner + u64_bytes(t.amount) + coption_key_bytes(t.delegate, dst.subrange(76, 108))
        + seq![state_byte(t.state)] + coption_u64_bytes(t.is_native, dst.subrange(113, 121))
        + u64_bytes(t.delegated_amount) + coption_key_bytes(t.close_authority, dst.subrange(133, 165))
}

/// The token account that 165 bytes hold, if they hold an initialized one.
pub open spec fn unpack_token_account(s: Seq<u8>) -> Option<TokenAccountView> {
    if s.len() == 165 && tag_valid(s, 72) && tag_valid(s, 109) && tag_valid(s, 129) && (s[108] == 1
        || s[108] == 2) {
        Some(
            TokenAccountView {
                mint: s.subrange(0, 32),
                owner: s.subrange(32, 64),
                amount: le_u64(s, 64),
                delegate: coption_key_at(s, 72),
                state: if s[108] == 1 {
                    AccountState::Initialized
                } else {
                    AccountState::Frozen
                },
                is_native: coption_u64_at(s, 109),
                delegated_amount: le_u64(s, 121),
                close_authority: coption_key_at(s, 129),
            },
        )
    } else {
        None
    }
}

/// Calls `Pack::pack` for `spl_token::state::Mint` into the 82 bytes of
/// `dst`, which writes the layout of `pack_mint_into`.
#[verifier::external_body]
fn mint_pack(m: &Mint, dst: &mut Vec<u8>)
    requires
        old(dst)@.len() == 82,
    ensures
        final(dst)@ == pack_mint_into(m@, old(dst)@),
{
    let spl = SplMint {
        mint_authority: m.mint_authority.map(|k| Address::new_from_array(k.bytes)).into(),
        supply: m.supply,
        decimals: m.decimals,
        is_initialized: m.is_initialized,
        freeze_authority: m.freeze_authority.map(|k| Address::new_from_array(k.bytes)).into(),
    };
    SplMint::pack(spl, dst.as_mut_slice()).unwrap();
}

/// Calls `Pack::unpack` for `spl_token::state::Mint`: 82 bytes with valid
/// option tags and an initialized flag of 1 give the mint of `unpack_mint`;
/// anything else is an error.
#[verifier::external_body]
fn mint_unpack(data: &[u8]) -> (r: Option<Mint>)
    ensures
        match unpack_mint(data@) {
            Some(v) => r matches Some(m) && m@ == v,
            None => r is None,
        },
{
    let m = SplMint::unpack(data).ok()?;
    Some(Mint {
        mint_authority: Option::from(m.mint_authority).map(|k: Address| Pubkey { bytes: k.to_bytes() }),
        supply: m.supply,
        decimals: m.decimals,
        is_initialized: m.is_initialized,
        freeze_authority: Option::from(m.freeze_authority).map(|k: Address| Pubkey { bytes: k.to_bytes() }),
    })
}

/// Calls `Pack::pack` for `spl_token::state::Account` into the 165 bytes of
/// `dst`, which writes the layout of `pack_token_account_into`.
#[verifier::external_body]
fn token_account_pack(t: &TokenAccount, dst: &mut Vec<u8>)
    requires
        old(dst)@.len() == 165,
    ensures
        final(dst)@ == pack_token_account_into(t@, old(dst)@),
{
    let spl = SplAccount {
        mint: Address::new_from_array(t.mint.bytes),
        owner: Address::new_from_array(t.owner.bytes),
        amount: t.amount,
        delegate: t.delegate.map(|k| Address::new_from_array(k.bytes)).into(),
        state: match t.state { AccountState::Uninitialized => SplAccountState::Uninitialized, AccountState::Initialized => SplAccountState::Initialized, AccountState::Frozen => SplAccountState::Frozen },
        is_native: t.is_native.into(),
        delegated_amount: t.delegated_amount,
        close_authority: t.close_authority.map(|k| Address::new_from_array(k.bytes)).into(),
    };
    SplAccount::pack(spl, dst.as_mut_slice()).unwrap();
}

/// Calls `Pack::unpack` for `spl_token::state::Account`: 165 bytes with valid
/// option tags and a state of 1 (initialized) or 2 (frozen) give the account
/// of `unpack_token_account`; anything else is an error.
#[verifier::external_body]
fn token_account_unpack(data: &[u8]) -> (r: Option<TokenAccount>)
    ensures
        match unpack_token_account(data@) {
            Some(v) => r matches Some(t) && t@ == v,
            None => r is None,
        },
{
    let t = SplAccount::unpack(data).ok()?;
    Some(TokenAccount {
        mint: Pubkey { bytes: t.mint.to_bytes() },
        owner: Pubkey { bytes: t.owner.to_bytes() },
        amount: t.amount,
        delegate: Option::from(t.delegate).map(|k: Address| Pubkey { bytes: k.to_bytes() }),
        state: match t.state { SplAccountState::Uninitialized => AccountState::Uninitialized, SplAccountState::Initialized => AccountState::Initialized, SplAccountState::Frozen => AccountState::Frozen },
        is_native: t.is_native.into(),
        delegated_amount: t.delegated_amount,
        close_authority: Option::from(t.close_authority).map(|k: Address| Pubkey { bytes: k.to_bytes() }),
    })
}

impl Mint {
    /// The mint packed into 82 zero bytes.
    pub fn pack_new(&self) -> (r: Vec<u8>)
        ensures
            r@ == pack_mint_into(self@, Seq::new(82, |i: int| 0u8)),
    {
        let mut data: Vec<u8> = vec![0u8; 82];
        proof {
            assert(data@ =~= Seq::new(82, |i: int| 0u8));
        }
        mint_pack(self, &mut data);
        data
    }

    /// The mint packed into the 82 bytes of `dst`.
    pub fn pack_into(&self, dst: &mut Vec<u8>)
        requires
            old(dst)@.len() == 82,
        ensures
            final(dst)@ == pack_mint_into(self@, old(dst)@),
    {
        mint_pack(self, dst);
    }

    /// The initialized mint that `data` holds, if any.
    pub fn unpack(data: &[u8]) -> (r: Option<Mint>)
        ensures
            match unpack_mint(data@) {
                Some(v) => r matches Some(m) && m@ == v,
                None => r is None,
            },
    {
        mint_unpack(data)
    }
}

impl TokenAccount {
    /// The token account packed into 165 zero bytes.
    pub fn pack_new(&self) -> (r: Vec<u8>)
        ensures
            r@ == pack_token_account_into(self@, Seq::new(165, |i: int| 0u8)),
    {
        let mut data: Vec<u8> = vec![0u8; 165];
        proof {
            assert(data@ =~= Seq::new(165, |i: int| 0u8));
        }
        token_account_pack(self, &mut data);
        data
    }

    /// The token account packed into the 165 bytes of `dst`.
    pub fn pack_into(&self, dst: &mut Vec<u8>)
        requires
            old(dst)@.len() == 165,
        ensures
            final(dst)@ == pack_token_account_into(self@, old(dst)@),
    {
        token_account_pack(self, dst);
    }

    /// The initialized token account that `data` holds, if any.
    pub fn unpack(data: &[u8]) -> (r: Option<TokenAccount>)
        ensures
            match unpack_token_account(data@) {
                Some(v) => r matches Some(t) && t@ == v,
                None => r is None,
            },
    {
        token_account_unpack(data)
    }
}

// ---------------------------------------------------------------------------
// Laws of the layouts
// ---------------------------------------------------------------------------

/// Unpacking a packed initialized mint gives the mint back, whatever the
/// bytes were before.
pub proof fn law_mint_pack_unpack(m: MintView, dst: Seq<u8>)
    requires
        dst.len() == 82,
        m.is_initialized,
        m.mint_authority matches Some(k) ==> k.len() == 32,
        m.freeze_authority matches Some(k) ==> k.len() == 32,
    ensures
        unpack_mint(pack_mint_into(m, dst)) == Some(m),
{
    let s = pack_mint_into(m, dst);
    crate::wire::lemma_u64_round_trip(m.supply);
    assert(s.len() == 82);
    assert(s.subrange(36, 44) =~= u64_bytes(m.supply));
    crate::wire::lemma_le_u64_at(s, 36, u64_bytes(m.supply));
    assert(s.subrange(0, 36) =~= coption_key_bytes(m.mint_authority, dst.subrange(4, 36)));
    assert(s.subrange(46, 82) =~= coption_key_bytes(m.freeze_authority, dst.subrange(50, 82)));
    assert(s[44] == m.decimals);
    assert(s[45] == 1);
    match m.mint_authority {
        Some(k) => {
            assert(s.subrange(4, 36) =~= k);
        },
        None => {},
    }
    match m.freeze_authority {
        Some(k) => {
            assert(s.subrange(50, 82) =~= k);
        },
        None => {},
    }
    assert(s[0] == s.subrange(0, 36)[0]);
    assert(s[1] == s.subrange(0, 36)[1]);
    assert(s[2] == s.subrange(0, 36)[2]);
    assert(s[3] == s.subrange(0, 36)[3]);
    assert(s[46] == s.subrange(46, 82)[0]);
    assert(s[47] == s.subrange(46, 82)[1]);
    assert(s[48] == s.subrange(46, 82)[2]);
    assert(s[49] == s.subrange(46, 82)[3]);
}

/// Unpacking a packed initialized (or frozen) token account gives it back,
/// whatever the bytes were before.
pub proof fn law_token_account_pack_unpack(t: TokenAccountView, dst: Seq<u8>)
    requires
        dst.len() == 165,
        t.mint.len() == 32,
        t.owner.len() == 32,
        t.state != AccountState::Uninitialized,
        t.delegate matches Some(k) ==> k.len() == 32,
        t.close_authority matches Some(k) ==> k.len() == 32,
    ensures
        unpack_token_account(pack_token_account_into(t, dst)) == Some(t),
{
    let s = pack_token_account_into(t, dst);
    crate::wire::lemma_u64_round_trip(t.amount);
    crate::wire::lemma_u64_round_trip(t.delegated_amount);
    assert(s.len() == 165);
    assert(s.subrange(0, 32) =~= t.mint);
    assert(s.subrange(32, 64) =~= t.owner);
    assert(s.subrange(64, 72) =~= u64_bytes(t.amount));
    crate::wire::lemma_le_u64_at(s, 64, u64_bytes(t.amount));
    assert(s.subrange(121, 129) =~= u64_bytes(t.delegated_amount));
    crate::wire::lemma_le_u64_at(s, 121, u64_bytes(t.delegated_amount));
    let d = s.subrange(72, 108);
    let n = s.subrange(109, 121);
    let c = s.subrange(129, 165);
    assert(d =~= coption_key_bytes(t.delegate, dst.subrange(76, 108)));
    assert(n =~= coption_u64_bytes(t.is_native, dst.subrange(113, 121)));
    assert(c =~= coption_key_bytes(t.close_authority, dst.subrange(133, 165)));
    assert(s[108] == state_byte(t.state));
    match t.delegate {
        Some(k) => {
            assert(s.subrange(76, 108) =~= k);
        },
        None => {},
    }
    match t.close_authority {
        Some(k) => {
            assert(s.subrange(133, 165) =~= k);
        },
        None => {},
    }
    match t.is_native {
        Some(v) => {
            crate::wire::lemma_u64_round_trip(v);
            assert(s.subrange(113, 121) =~= u64_bytes(v));
            crate::wire::lemma_le_u64_at(s, 113, u64_bytes(v));
        },
        None => {},
    }
    assert(s[72] == d[0] && s[73] == d[1] && s[74] == d[2] && s[75] == d[3]);
    assert(s[109] == n[0] && s[110] == n[1] && s[111] == n[2] && s[112] == n[3]);
    assert(s[129] == c[0] && s[130] == c[1] && s[131] == c[2] && s[132] == c[3]);
}

/// Changing the amount of a token account and reading it back gives the
/// account with the new amount and every other field as it was.
pub proof fn law_token_amount_read_back(data: Seq<u8>, amount: u64)
    requires
        unpack_token_account(data) is Some,
    ensures
        ({
            let t = unpack_token_account(data).unwrap();
            unpack_token_account(pack_token_account_into(TokenAccountView { amount, ..t }, data)) == Some(
                TokenAccountView { amount, ..t },
            )
        }),
{
    let t = unpack_token_account(data).unwrap();
    law_token_account_pack_unpack(TokenAccountView { amount, ..t }, data);
}

/// Changing the supply of a mint and reading it back gives the mint with the
/// new supply and every other field as it was.
pub proof fn law_mint_supply_read_back(data: Seq<u8>, supply: u64)
    requires
        unpack_mint(data) is Some,
    ensures
        ({
            let m = unpack_mint(data).unwrap();
            unpack_mint(pack_mint_into(MintView { supply, ..m }, data)) == Some(MintView { supply, ..m })
        }),
{
    let m = unpack_mint(data).unwrap();
    law_mint_pack_unpack(MintView { supply, ..m }, data);
}

// ---------------------------------------------------------------------------
// Account factories
// ---------------------------------------------------------------------------

/// A system-owned account with no data.
pub fn create_keyed_system_account(address: &Pubkey, lamports: u64) -> (r: Account)
    ensures
        r@ == (AccountView {
            address: address@,
            lamports,
            data: Seq::empty(),
            owner: SYSTEM_PROGRAM_ID@,
            executable: false,
        }),
{
    Account {
        address: *address,
        lamports,
        data: Vec::new(),
        owner: Pubkey::new_from_array(SYSTEM_PROGRAM_ID),
        executable: false,
    }
}

/// A mint account owned by the SPL Token program.
pub fn create_keyed_mint_account(address: &Pubkey, mint: &Mint) -> (r: Account)
    ensures
        r@ == mint_account_view(address@, mint@, SPL_TOKEN_PROGRAM_ID@),
{
    create_keyed_mint_account_with_program(address, mint, &Pubkey::new_from_array(SPL_TOKEN_PROGRAM_ID))
}

/// The account of a packed mint: rent-exempt under the default rent.
pub open spec fn mint_account_view(address: Seq<u8>, mint: MintView, token_program_id: Seq<u8>) -> AccountView {
    AccountView {
        address,
        lamports: default_minimum_balance(82),
        data: pack_mint_into(mint, Seq::new(82, |i: int| 0u8)),
        owner: token_program_id,
        executable: false,
    }
}

/// The account of a packed token account: rent-exempt under the default rent.
pub open spec fn token_account_view(address: Seq<u8>, token: TokenAccountView, token_program_id: Seq<u8>) -> AccountView {
    AccountView {
        address,
        lamports: default_minimum_balance(165),
        data: pack_token_account_into(token, Seq::new(165, |i: int| 0u8)),
        owner: token_program_id,
        executable: false,
    }
}

/// A mint account owned by `token_program_id`.
pub fn create_keyed_mint_account_with_program(address: &Pubkey, mint: &Mint, token_program_id: &Pubkey) -> (r: Account)
    ensures
        r@ == mint_account_view(address@, mint@, token_program_id@),
{
    let data = mint.pack_new();
    Account {
        address: *address,
        lamports: Rent::default_rent().minimum_balance(MINT_LEN),
        data,
        owner: *token_program_id,
        executable: false,
    }
}

/// A token account owned by the SPL Token program.
pub fn create_keyed_token_account(address: &Pubkey, token: &TokenAccount) -> (r: Account)
    ensures
        r@ == token_account_view(address@, token@, SPL_TOKEN_PROGRAM_ID@),
{
    create_keyed_token_account_with_program(address, token, &Pubkey::new_from_array(SPL_TOKEN_PROGRAM_ID))
}

/// A token account owned by `token_program_id`.
pub fn create_keyed_token_account_with_program(address: &Pubkey, token: &TokenAccount, token_program_id: &Pubkey) -> (r: Account)
    ensures
        r@ == token_account_view(address@, token@, token_program_id@),
{
    let data = token.pack_new();
    Account {
        address: *address,
        lamports: Rent::default_rent().minimum_balance(TOKEN_ACCOUNT_LEN),
        data,
        owner: *token_program_id,
        executable: false,
    }
}

/// The associated token account address of `wallet` for `mint` under
/// `token_program_id`, if one can be derived.
pub open spec fn associated_token_address(wallet: Seq<u8>, mint: Seq<u8>, token_program_id: Seq<u8>) -> Option<Seq<u8>> {
    match spec_find_program_address(seq![wallet, token_program_id, mint], SPL_ASSOCIATED_TOKEN_PROGRAM_ID@) {
        Some((k, _)) => Some(k),
        None => None,
    }
}

/// The initialized token account of `wallet` holding `amount` of `mint`.
pub open spec fn associated_token_state(wallet: Seq<u8>, mint: Seq<u8>, amount: u64) -> TokenAccountView {
    TokenAccountView {
        mint,
        owner: wallet,
        amount,
        delegate: None,
        state: AccountState::Initialized,
        is_native: None,
        delegated_amount: 0,
        close_authority: None,
    }
}

/// Derives the associated token account address.
fn derive_associated_token_address(wallet: &Pubkey, mint: &Pubkey, token_program_id: &Pubkey) -> (r: Option<Pubkey>)
    ensures
        match associated_token_address(wallet@, mint@, token_program_id@) {
            Some(k) => r matches Some(a) && a@ == k,
            None => r is None,
        },
{
    let seeds: Vec<Vec<u8>> = vec![wallet.to_vec(), token_program_id.to_vec(), mint.to_vec()];
    proof {
        assert(seeds@.map_values(|s: Vec<u8>| s@) =~= seq![wallet@, token_program_id@, mint@]);
    }
    match try_find_program_address(&seeds, &Pubkey::new_from_array(SPL_ASSOCIATED_TOKEN_PROGRAM_ID)) {
        Some((k, _bump)) => Some(k),
        None => None,
    }
}

/// The associated token account address of `wallet` for `mint` under
/// `token_program_id`.
pub fn get_associated_token_address(wallet: &Pubkey, mint: &Pubkey, token_program_id: &Pubkey) -> (r: Pubkey)
    requires
        associated_token_address(wallet@, mint@, token_program_id@) is Some,
    ensures
        associated_token_address(wallet@, mint@, token_program_id@) == Some(r@),
{
    match derive_associated_token_address(wallet, mint, token_program_id) {
        Some(k) => k,
        None => Pubkey::zeroed(),
    }
}

/// The associated token account address of `wallet` for `mint`, or `None`
/// when none can be derived.
pub fn try_get_associated_token_address(wallet: &Pubkey, mint: &Pubkey, token_program_id: &Pubkey) -> (r: Option<Pubkey>)
    ensures
        match associated_token_address(wallet@, mint@, token_program_id@) {
            Some(k) => r matches Some(a) && a@ == k,
            None => r is None,
        },
{
    match derive_associated_token_address(wallet, mint, token_program_id) {
        Some(_) => Some(get_associated_token_address(wallet, mint, token_program_id)),
        None => None,
    }
}

/// An initialized associated token account of `wallet` for `mint` holding
/// `amount`, under `token_program_id`; its address is derived from the
/// wallet, the token program and the mint.
pub fn create_keyed_associated_token_account_with_program(
    wallet: &Pubkey,
    mint: &Pubkey,
    amount: u64,
    token_program_id: &Pubkey,
) -> (r: Account)
    requires
        associated_token_address(wallet@, mint@, token_program_id@) is Some,
    ensures
        r@ == token_account_view(
            associated_token_address(wallet@, mint@, token_program_id@).unwrap(),
            associated_token_state(wallet@, mint@, amount),
            token_program_id@,
        ),
{
    let ata = get_associated_token_address(wallet, mint, token_program_id);
    let token = TokenAccount {
        mint: *mint,
        owner: *wallet,
        amount,
        delegate: None,
        state: AccountState::Initialized,
        is_native: None,
        delegated_amount: 0,
        close_authority: None,
    };
    create_keyed_token_account_with_program(&ata, &token, token_program_id)
}

/// An initialized associated token account of `wallet` for `mint` holding
/// `amount`, or `None` when its address cannot be derived.
pub fn try_create_keyed_associated_token_account_with_program(
    wallet: &Pubkey,
    mint: &Pubkey,
    amount: u64,
    token_program_id: &Pubkey,
) -> (r: Option<Account>)
    ensures
        match associated_token_address(wallet@, mint@, token_program_id@) {
            Some(k) => r matches Some(a) && a@ == token_account_view(
                k,
                associated_token_state(wallet@, mint@, amount),
                token_program_id@,
            ),
            None => r is None,
        },
{
    match derive_associated_token_address(wallet, mint, token_program_id) {
        Some(_) => Some(create_keyed_associated_token_account_with_program(wallet, mint, amount, token_program_id)),
        None => None,
    }
}

/// An initialized associated token account of `wallet` for `mint` holding
/// `amount`, under the SPL Token program.
pub fn create_keyed_associated_token_account(wallet: &Pubkey, mint: &Pubkey, amount: u64) -> (r: Account)
    requires
        associated_token_address(wallet@, mint@, SPL_TOKEN_PROGRAM_ID@) is Some,
    ensures
        r@ == token_account_view(
            associated_token_address(wallet@, mint@, SPL_TOKEN_PROGRAM_ID@).unwrap(),
            associated_token_state(wallet@, mint@, amount),
            SPL_TOKEN_PROGRAM_ID@,
        ),
{
    create_keyed_associated_token_account_with_program(wallet, mint, amount, &Pubkey::new_from_array(SPL_TOKEN_PROGRAM_ID))
}

/// An initialized associated token account of `wallet` for `mint` holding
/// `amount` under the SPL Token program, or `None` when its address cannot
/// be derived.
pub fn try_create_keyed_associated_token_account(wallet: &Pubkey, mint: &Pubkey, amount: u64) -> (r: Option<Account>)
    ensures
        match associated_token_address(wallet@, mint@, SPL_TOKEN_PROGRAM_ID@) {
            Some(k) => r matches Some(a) && a@ == token_account_view(
                k,
                associated_token_state(wallet@, mint@, amount),
                SPL_TOKEN_PROGRAM_ID@,
            ),
            None => r is None,
        },
{
    let tp = Pubkey::new_from_array(SPL_TOKEN_PROGRAM_ID);
    match derive_associated_token_address(wallet, mint, &tp) {
        Some(_) => Some(create_keyed_associated_token_account(wallet, mint, amount)),
        None => None,
    }
}

} // verus!
