//! Test users: a funded system account and associated token accounts.
use vstd::prelude::*;
use crate::account::{Account, AccountView, accounts_view};
use crate::ids::{SPL_TOKEN_2022_PROGRAM_ID, SPL_TOKEN_PROGRAM_ID, SYSTEM_PROGRAM_ID};
use crate::pubkey::Pubkey;
use crate::token::{
    associated_token_address, associated_token_state, create_keyed_system_account,
    get_associated_token_address, token_account_view, try_create_keyed_associated_token_account_with_program,
};

verus! {

/// A token balance to give a user.
#[derive(Clone, Copy, Debug)]
pub struct UserToken {
    pub mint: Pubkey,
    pub amount: u64,
    pub token_program_id: Pubkey,
}

impl UserToken {
    /// `amount` of `mint` under `token_program_id`.
    pub fn new(mint: &Pubkey, amount: u64, token_program_id: &Pubkey) -> (r: UserToken)
        ensures
            r.mint == *mint,
            r.amount == amount,
            r.token_program_id == *token_program_id,
    {
        UserToken { mint: *mint, amount, token_program_id: *token_program_id }
    }

    /// `amount` of `mint` under SPL Token.
    pub fn spl(mint: &Pubkey, amount: u64) -> (r: UserToken)
        ensures
            r.mint == *mint,
            r.amount == amount,
            r.token_program_id@ == SPL_TOKEN_PROGRAM_ID@,
    {
        UserToken::new(mint, amount, &Pubkey::new_from_array(SPL_TOKEN_PROGRAM_ID))
    }

    /// `amount` of `mint` under Token-2022.
    pub fn spl_2022(mint: &Pubkey, amount: u64) -> (r: UserToken)
        ensures
            r.mint == *mint,
            r.amount == amount,
            r.token_program_id@ == SPL_TOKEN_2022_PROGRAM_ID@,
    {
        UserToken::new(mint, amount, &Pubkey::new_from_array(SPL_TOKEN_2022_PROGRAM_ID))
    }
}

/// A token account a user holds.
pub struct TokenPosition {
    pub mint: Pubkey,
    pub ata: Pubkey,
    pub account: Account,
}

/// A test user: a system account and token accounts.
pub struct User {
    pub pubkey: Pubkey,
    pub system: Account,
    pub tokens: Vec<TokenPosition>,
}

/// Whether every token of `tokens` has an associated account address for `wallet`.
pub open spec fn atas_derivable(wallet: Seq<u8>, tokens: Seq<UserToken>) -> bool {
    forall|i: int| 0 <= i < tokens.len() ==> associated_token_address(wallet, (#[trigger] tokens[i]).mint@, tokens[i].token_program_id@) is Some
}

/// The token account of `wallet` for token `t`.
pub open spec fn user_token_account(wallet: Seq<u8>, t: UserToken) -> AccountView {
    token_account_view(
        associated_token_address(wallet, t.mint@, t.token_program_id@).unwrap(),
        associated_token_state(wallet, t.mint@, t.amount),
        t.token_program_id@,
    )
}

impl User {
    /// Whether the user is `wallet` with `lamports`, holding the tokens of `tokens`.
    pub open spec fn holds(&self, wallet: Seq<u8>, lamports: u64, tokens: Seq<UserToken>) -> bool {
        &&& self.pubkey@ == wallet
        &&& self.system@ == (AccountView {
            address: wallet,
            lamports,
            data: Seq::empty(),
            owner: SYSTEM_PROGRAM_ID@,
            executable: false,
        })
        &&& self.tokens@.len() == tokens.len()
        &&& forall|i: int| 0 <= i < tokens.len() ==> {
            &&& (#[trigger] self.tokens@[i]).mint@ == tokens[i].mint@
            &&& self.tokens@[i].ata@ == associated_token_address(wallet, tokens[i].mint@, tokens[i].token_program_id@).unwrap()
            &&& self.tokens@[i].account@ == user_token_account(wallet, tokens[i])
        }
    }

    /// The user at `pubkey` with `lamports` and an associated token account
    /// for each of `tokens`; `None` when an account address cannot be derived.
    pub fn new_with_pubkey(pubkey: &Pubkey, lamports: u64, tokens: &Vec<UserToken>) -> (r: Option<User>)
        ensures
            r is Some <==> atas_derivable(pubkey@, tokens@),
            r matches Some(u) ==> u.holds(pubkey@, lamports, tokens@),
    {
        let system = create_keyed_system_account(pubkey, lamports);
        let mut positions: Vec<TokenPosition> = Vec::new();
        let mut i: usize = 0;
        while i < tokens.len()
            invariant
                i <= tokens@.len(),
                positions@.len() == i,
                forall|j: int| 0 <= j < i ==> associated_token_address(pubkey@, (#[trigger] tokens@[j]).mint@, tokens@[j].token_program_id@) is Some,
                forall|j: int| 0 <= j < i ==> {
                    &&& (#[trigger] positions@[j]).mint@ == tokens@[j].mint@
                    &&& positions@[j].ata@ == associated_token_address(pubkey@, tokens@[j].mint@, tokens@[j].token_program_id@).unwrap()
                    &&& positions@[j].account@ == user_token_account(pubkey@, tokens@[j])
                },
            decreases tokens@.len() - i,
        {
            let t = &tokens[i];
            match try_create_keyed_associated_token_account_with_program(pubkey, &t.mint, t.amount, &t.token_program_id) {
                Some(account) => {
                    positions.push(TokenPosition { mint: t.mint, ata: account.address, account });
                },
                None => {
                    return None;
                },
            }
            i = i + 1;
        }
        Some(User { pubkey: *pubkey, system, tokens: positions })
    }

    /// A user at a fresh address with `lamports` and an associated token
    /// account for each of `tokens`; `None` when an account address cannot
    /// be derived.
    pub fn new(lamports: u64, tokens: &Vec<UserToken>) -> (r: Option<User>)
        ensures
            r matches Some(u) ==> u.holds(u.pubkey@, lamports, tokens@) && atas_derivable(u.pubkey@, tokens@),
            r is None ==> exists|k: Pubkey| !atas_derivable(k@, tokens@),
    {
        let pubkey = Pubkey::new_unique();
        let r = User::new_with_pubkey(&pubkey, lamports, tokens);
        proof {
            if r is None {
                assert(!atas_derivable(pubkey@, tokens@));
            }
        }
        r
    }

    /// The associated token account of the user for `mint` (see
    /// [`User::ata`]), or `None` when it is not held and its address cannot
    /// be derived.
    pub fn try_ata(&self, mint: &Pubkey) -> (r: Option<Pubkey>)
        ensures
            r is None <==> ((forall|i: int| 0 <= i < self.tokens@.len() ==> (#[trigger] self.tokens@[i]).mint@ != mint@)
                && associated_token_address(self.pubkey@, mint@, SPL_TOKEN_PROGRAM_ID@) is None),
            (forall|i: int| 0 <= i < self.tokens@.len() ==> (#[trigger] self.tokens@[i]).mint@ != mint@) ==> match r {
                Some(k) => Some(k@) == associated_token_address(self.pubkey@, mint@, SPL_TOKEN_PROGRAM_ID@),
                None => true,
            },
            (exists|i: int| 0 <= i < self.tokens@.len() && (#[trigger] self.tokens@[i]).mint@ == mint@) ==> (r matches Some(k) && exists|i: int|
                0 <= i < self.tokens@.len() && self.tokens@[i].mint@ == mint@ && k == self.tokens@[i].ata && forall|j: int|
                    0 <= j < i ==> (#[trigger] self.tokens@[j]).mint@ != mint@),
    {
        let mut i: usize = 0;
        while i < self.tokens.len()
            invariant
                i <= self.tokens@.len(),
                forall|j: int| 0 <= j < i ==> (#[trigger] self.tokens@[j]).mint@ != mint@,
            decreases self.tokens@.len() - i,
        {
            if self.tokens[i].mint == *mint {
                return Some(self.ata(mint));
            }
            i = i + 1;
        }
        match crate::token::try_get_associated_token_address(&self.pubkey, mint, &Pubkey::new_from_array(SPL_TOKEN_PROGRAM_ID)) {
            Some(_) => Some(self.ata(mint)),
            None => None,
        }
    }

    /// The associated token account of the user for `mint`: the held one, or
    /// else the address derived under SPL Token.
    pub fn ata(&self, mint: &Pubkey) -> (r: Pubkey)
        requires
            (forall|i: int| 0 <= i < self.tokens@.len() ==> (#[trigger] self.tokens@[i]).mint@ != mint@) ==> associated_token_address(
                self.pubkey@,
                mint@,
                SPL_TOKEN_PROGRAM_ID@,
            ) is Some,
        ensures
            (exists|i: int| 0 <= i < self.tokens@.len() && (#[trigger] self.tokens@[i]).mint@ == mint@) ==> (exists|i: int|
                0 <= i < self.tokens@.len() && self.tokens@[i].mint@ == mint@ && r == self.tokens@[i].ata && forall|j: int|
                    0 <= j < i ==> (#[trigger] self.tokens@[j]).mint@ != mint@),
            (forall|i: int| 0 <= i < self.tokens@.len() ==> (#[trigger] self.tokens@[i]).mint@ != mint@) ==> Some(r@)
                == associated_token_address(self.pubkey@, mint@, SPL_TOKEN_PROGRAM_ID@),
    {
        let mut i: usize = 0;
        while i < self.tokens.len()
            invariant
                i <= self.tokens@.len(),
                forall|j: int| 0 <= j < i ==> (#[trigger] self.tokens@[j]).mint@ != mint@,
            decreases self.tokens@.len() - i,
        {
            if self.tokens[i].mint == *mint {
                return self.tokens[i].ata;
            }
            i = i + 1;
        }
        get_associated_token_address(&self.pubkey, mint, &Pubkey::new_from_array(SPL_TOKEN_PROGRAM_ID))
    }

    /// The user's system account, then its token accounts.
    pub fn accounts(&self) -> (r: Vec<Account>)
        ensures
            accounts_view(r@) == seq![self.system@] + self.tokens@.map_values(|t: TokenPosition| t.account@),
    {
        let mut out: Vec<Account> = Vec::new();
        out.push(self.system.duplicate());
        let mut i: usize = 0;
        while i < self.tokens.len()
            invariant
                i <= self.tokens@.len(),
                accounts_view(out@) == seq![self.system@] + self.tokens@.take(i as int).map_values(|t: TokenPosition| t.account@),
            decreases self.tokens@.len() - i,
        {
            let ghost before = out@;
            out.push(self.tokens[i].account.duplicate());
            proof {
                assert(self.tokens@.take(i + 1).map_values(|t: TokenPosition| t.account@) =~= self.tokens@.take(i as int).map_values(
                    |t: TokenPosition| t.account@,
                ).push(self.tokens@[i as int].account@));
                assert(accounts_view(out@) =~= accounts_view(before).push(self.tokens@[i as int].account@));
            }
            i = i + 1;
        }
        proof {
            assert(self.tokens@.take(self.tokens@.len() as int) =~= self.tokens@);
        }
        out
    }
}

} // verus!
