//! The ledger state that the vault program acts on: native-value accounts,
//! mints and token accounts, and the primitives of the runtime over them.
//! Every primitive either succeeds or leaves the ledger as it was.
use vstd::prelude::*;

use crate::address::Address;
use crate::derivation::{
    associated_address_of, associated_token_address, program_address,
    seeds_view, signs_for,
};
use crate::table::{
    contains_key, entry, index_of, keys_unique, lemma_push, lemma_update, position, Keyed,
};

verus! {

/// The size in bytes of a mint record of the token standard.
pub const MINT_SIZE: u64 = 82;

/// The size in bytes of a token-account record of the token standard.
pub const TOKEN_ACCOUNT_SIZE: u64 = 165;

/// What a new token account is funded with by its payer: the rent-exempt
/// balance of its size.
pub const TOKEN_ACCOUNT_RENT: u64 = 2_039_280;

/// An account that holds native value.
#[derive(Clone, Copy, Debug)]
pub struct Account {
    pub address: Address,
    pub lamports: u64,
    pub space: u64,
    pub owner: Address,
}

/// A fungible-token mint.
#[derive(Clone, Copy, Debug)]
pub struct Mint {
    pub address: Address,
    pub decimals: u8,
    pub supply: u64,
    pub mint_authority: Address,
    pub freeze_authority: Option<Address>,
}

/// A token account: a balance of one mint, held by an owner.
#[derive(Clone, Copy, Debug)]
pub struct TokenAccount {
    pub address: Address,
    pub owner: Address,
    pub mint: Address,
    pub amount: u64,
}

impl Keyed for Account {
    open spec fn key(&self) -> Seq<u8> {
        self.address@
    }

    fn address(&self) -> (r: &Address) {
        &self.address
    }
}

impl Keyed for Mint {
    open spec fn key(&self) -> Seq<u8> {
        self.address@
    }

    fn address(&self) -> (r: &Address) {
        &self.address
    }
}

impl Keyed for TokenAccount {
    open spec fn key(&self) -> Seq<u8> {
        self.address@
    }

    fn address(&self) -> (r: &Address) {
        &self.address
    }
}

/// Why a ledger operation failed.
#[derive(Clone, Copy, Debug, PartialEq, Eq)]
pub enum LedgerError {
    AccountNotFound,
    AccountAlreadyExists,
    InsufficientFunds,
    InvalidAccountOwner,
    AccountSizeMismatch,
    AlreadyInitialized,
    UninitializedMint,
    MintMismatch,
    AuthorityMismatch,
    InvalidSeeds,
    Overflow,
    InvalidAmount,
    InvalidVault,
}

/// The ledger, with the identities of the programs that act on it and the
/// treasury: the one account that receives what investors pay into the vault.
pub struct Ledger {
    pub program_id: Address,
    pub token_program_id: Address,
    pub associated_token_program_id: Address,
    pub treasury: Address,
    pub accounts: Vec<Account>,
    pub mints: Vec<Mint>,
    pub token_accounts: Vec<TokenAccount>,
}

/// The owner of a plain account: the system program, whose address is all zeros.
pub open spec fn system_owner() -> Seq<u8> {
    Seq::new(32, |i: int| 0u8)
}

/// The account with its native balance set to `lamports`.
pub open spec fn with_lamports(a: Account, lamports: int) -> Account {
    Account { address: a.address, lamports: lamports as u64, space: a.space, owner: a.owner }
}

/// The accounts after `payer` funds the new account `new` with its balance.
pub open spec fn with_new_account(accounts: Seq<Account>, payer: Seq<u8>, new: Account) -> Seq<Account> {
    accounts.update(
        index_of(accounts, payer),
        with_lamports(entry(accounts, payer), entry(accounts, payer).lamports - new.lamports),
    ).push(new)
}

/// The mint with its supply set to `supply`.
pub open spec fn with_supply(m: Mint, supply: int) -> Mint {
    Mint {
        address: m.address,
        decimals: m.decimals,
        supply: supply as u64,
        mint_authority: m.mint_authority,
        freeze_authority: m.freeze_authority,
    }
}

/// The token account with its balance set to `amount`.
pub open spec fn with_amount(t: TokenAccount, amount: int) -> TokenAccount {
    TokenAccount { address: t.address, owner: t.owner, mint: t.mint, amount: amount as u64 }
}

impl Ledger {
    /// No address repeats within a table, and every mint lives in an account.
    pub open spec fn wf(&self) -> bool {
        &&& keys_unique(self.accounts@)
        &&& keys_unique(self.mints@)
        &&& keys_unique(self.token_accounts@)
        &&& forall|i: int|
            0 <= i < self.mints@.len() ==> contains_key(self.accounts@, #[trigger] self.mints@[i].key())
    }

    /// The two ledgers act for the same programs and the same treasury.
    pub open spec fn same_config(&self, other: &Ledger) -> bool {
        &&& self.program_id == other.program_id
        &&& self.token_program_id == other.token_program_id
        &&& self.associated_token_program_id == other.associated_token_program_id
        &&& self.treasury == other.treasury
    }

    /// The two ledgers hold the same records for the same programs.
    pub open spec fn same_state(&self, other: &Ledger) -> bool {
        &&& self.same_config(other)
        &&& self.accounts@ == other.accounts@
        &&& self.mints@ == other.mints@
        &&& self.token_accounts@ == other.token_accounts@
    }

    pub open spec fn has_account(&self, a: Seq<u8>) -> bool {
        contains_key(self.accounts@, a)
    }

    pub open spec fn account(&self, a: Seq<u8>) -> Account {
        entry(self.accounts@, a)
    }

    pub open spec fn has_mint(&self, a: Seq<u8>) -> bool {
        contains_key(self.mints@, a)
    }

    pub open spec fn mint(&self, a: Seq<u8>) -> Mint {
        entry(self.mints@, a)
    }

    pub open spec fn has_token_account(&self, a: Seq<u8>) -> bool {
        contains_key(self.token_accounts@, a)
    }

    pub open spec fn token_account(&self, a: Seq<u8>) -> TokenAccount {
        entry(self.token_accounts@, a)
    }

    /// An empty ledger for these programs and this treasury.
    pub fn new(
        program_id: Address,
        token_program_id: Address,
        associated_token_program_id: Address,
        treasury: Address,
    ) -> (r: Ledger)
        ensures
            r.wf(),
            r.program_id == program_id,
            r.token_program_id == token_program_id,
            r.associated_token_program_id == associated_token_program_id,
            r.treasury == treasury,
            r.accounts@.len() == 0,
            r.mints@.len() == 0,
            r.token_accounts@.len() == 0,
    {
        Ledger {
            program_id,
            token_program_id,
            associated_token_program_id,
            treasury,
            accounts: Vec::new(),
            mints: Vec::new(),
            token_accounts: Vec::new(),
        }
    }

    /// Opens a plain account holding `lamports`, owned by the system program.
    pub fn open_account(&mut self, address: &Address, lamports: u64) -> (r: Result<(), LedgerError>)
        requires
            old(self).wf(),
        ensures
            final(self).wf(),
            final(self).same_config(old(self)),
            final(self).mints@ == old(self).mints@,
            final(self).token_accounts@ == old(self).token_accounts@,
            old(self).has_account(address@) ==> r == Err::<(), LedgerError>(
                LedgerError::AccountAlreadyExists,
            ) && final(self).accounts@ == old(self).accounts@,
            !old(self).has_account(address@) ==> r is Ok && final(self).accounts@.len()
                == old(self).accounts@.len() + 1 && final(self).accounts@.last().address@ == address@
                && final(self).accounts@.last().lamports == lamports
                && final(self).accounts@.last().space == 0
                && final(self).accounts@.last().owner@ == system_owner()
                && final(self).accounts@.drop_last() == old(self).accounts@,
    {
        if position(&self.accounts, address).is_some() {
            return Err(LedgerError::AccountAlreadyExists);
        }
        let acct = Account { address: *address, lamports, space: 0, owner: Address::new([0u8; 32]) };
        proof {
            lemma_push(self.accounts@, acct);
            assert(acct.owner@ =~= system_owner());
        }
        self.accounts.push(acct);
        proof {
            assert(self.accounts@.drop_last() =~= old(self).accounts@);
            assert forall|i: int| 0 <= i < self.mints@.len() implies contains_key(
                self.accounts@,
                #[trigger] self.mints@[i].key(),
            ) by {
                assert(contains_key(old(self).accounts@, self.mints@[i].key()));
            }
        }
        Ok(())
    }

    /// The native balance of the account at `a`, if there is one.
    pub fn lamports(&self, a: &Address) -> (r: Option<u64>)
        requires
            self.wf(),
        ensures
            r == (if self.has_account(a@) {
                Some(self.account(a@).lamports)
            } else {
                None::<u64>
            }),
    {
        match position(&self.accounts, a) {
            Some(i) => Some(self.accounts[i].lamports),
            None => None,
        }
    }

    /// The mint at `a`, if one was initialized there.
    pub fn mint_state(&self, a: &Address) -> (r: Option<Mint>)
        requires
            self.wf(),
        ensures
            r == (if self.has_mint(a@) {
                Some(self.mint(a@))
            } else {
                None::<Mint>
            }),
    {
        match position(&self.mints, a) {
            Some(i) => Some(self.mints[i]),
            None => None,
        }
    }

    /// The token account at `a`, if there is one.
    pub fn token_account_state(&self, a: &Address) -> (r: Option<TokenAccount>)
        requires
            self.wf(),
        ensures
            r == (if self.has_token_account(a@) {
                Some(self.token_account(a@))
            } else {
                None::<TokenAccount>
            }),
    {
        match position(&self.token_accounts, a) {
            Some(i) => Some(self.token_accounts[i]),
            None => None,
        }
    }

    /// The supply of the mint at `a`, if one was initialized there.
    pub fn supply(&self, a: &Address) -> (r: Option<u64>)
        requires
            self.wf(),
        ensures
            r == (if self.has_mint(a@) {
                Some(self.mint(a@).supply)
            } else {
                None::<u64>
            }),
    {
        match position(&self.mints, a) {
            Some(i) => Some(self.mints[i].supply),
            None => None,
        }
    }

    /// The balance of the token account at `a`, if there is one.
    pub fn token_balance(&self, a: &Address) -> (r: Option<u64>)
        requires
            self.wf(),
        ensures
            r == (if self.has_token_account(a@) {
                Some(self.token_account(a@).amount)
            } else {
                None::<u64>
            }),
    {
        match position(&self.token_accounts, a) {
            Some(i) => Some(self.token_accounts[i].amount),
            None => None,
        }
    }

    /// Why `create_account` refuses, if it does.
    pub open spec fn create_account_error(&self, payer: Seq<u8>, new_account: Seq<u8>, lamports: u64) -> Option<LedgerError> {
        if !self.has_account(payer) {
            Some(LedgerError::AccountNotFound)
        } else if self.has_account(new_account) {
            Some(LedgerError::AccountAlreadyExists)
        } else if self.account(payer).lamports < lamports {
            Some(LedgerError::InsufficientFunds)
        } else {
            None
        }
    }

    /// Allocates `new_account` with `space` bytes for `owner`, funded with
    /// `lamports` taken from `payer`. An address is allocated once.
    pub fn create_account(
        &mut self,
        payer: &Address,
        new_account: &Address,
        lamports: u64,
        space: u64,
        owner: &Address,
    ) -> (r: Result<(), LedgerError>)
        requires
            old(self).wf(),
        ensures
            final(self).wf(),
            final(self).same_config(old(self)),
            final(self).mints@ == old(self).mints@,
            final(self).token_accounts@ == old(self).token_accounts@,
            match old(self).create_account_error(payer@, new_account@, lamports) {
                Some(e) => r == Err::<(), LedgerError>(e) && final(self).accounts@ == old(self).accounts@,
                None => r is Ok && final(self).accounts@ == with_new_account(
                    old(self).accounts@,
                    payer@,
                    Account { address: *new_account, lamports, space, owner: *owner },
                ),
            },
    {
        let ip = match position(&self.accounts, payer) {
            Some(i) => i,
            None => return Err(LedgerError::AccountNotFound),
        };
        if position(&self.accounts, new_account).is_some() {
            return Err(LedgerError::AccountAlreadyExists);
        }
        let p = self.accounts[ip];
        if p.lamports < lamports {
            return Err(LedgerError::InsufficientFunds);
        }
        let q = Account { address: p.address, lamports: p.lamports - lamports, space: p.space, owner: p.owner };
        let acct = Account { address: *new_account, lamports, space, owner: *owner };
        proof {
            lemma_update(self.accounts@, ip as int, q);
            lemma_push(self.accounts@.update(ip as int, q), acct);
        }
        self.accounts.set(ip, q);
        self.accounts.push(acct);
        proof {
            assert forall|i: int| 0 <= i < self.mints@.len() implies contains_key(
                self.accounts@,
                #[trigger] self.mints@[i].key(),
            ) by {
                assert(contains_key(old(self).accounts@, self.mints@[i].key()));
            }
        }
        Ok(())
    }

    /// Why `transfer_value` refuses, if it does.
    pub open spec fn transfer_error(&self, from: Seq<u8>, to: Seq<u8>, amount: u64) -> Option<LedgerError> {
        if !self.has_account(from) || !self.has_account(to) {
            Some(LedgerError::AccountNotFound)
        } else if self.account(from).lamports < amount {
            Some(LedgerError::InsufficientFunds)
        } else if from != to && self.account(to).lamports + amount > u64::MAX {
            Some(LedgerError::Overflow)
        } else {
            None
        }
    }

    /// The accounts after `amount` moves from `from` to `to`.
    pub open spec fn after_transfer(&self, from: Seq<u8>, to: Seq<u8>, amount: u64) -> Seq<Account> {
        if from == to {
            self.accounts@
        } else {
            self.accounts@.update(
                index_of(self.accounts@, from),
                with_lamports(self.account(from), self.account(from).lamports - amount),
            ).update(
                index_of(self.accounts@, to),
                with_lamports(self.account(to), self.account(to).lamports + amount),
            )
        }
    }

    /// Moves `amount` of native value from `from` to `to`.
    pub fn transfer_value(&mut self, from: &Address, to: &Address, amount: u64) -> (r: Result<(), LedgerError>)
        requires
            old(self).wf(),
        ensures
            final(self).wf(),
            final(self).same_config(old(self)),
            final(self).mints@ == old(self).mints@,
            final(self).token_accounts@ == old(self).token_accounts@,
            match old(self).transfer_error(from@, to@, amount) {
                Some(e) => r == Err::<(), LedgerError>(e) && final(self).accounts@ == old(self).accounts@,
                None => r is Ok && final(self).accounts@ == old(self).after_transfer(from@, to@, amount),
            },
    {
        let i = match position(&self.accounts, from) {
            Some(i) => i,
            None => return Err(LedgerError::AccountNotFound),
        };
        let j = match position(&self.accounts, to) {
            Some(j) => j,
            None => return Err(LedgerError::AccountNotFound),
        };
        let a = self.accounts[i];
        if a.lamports < amount {
            return Err(LedgerError::InsufficientFunds);
        }
        if from.same(to) {
            return Ok(());
        }
        let b = self.accounts[j];
        if b.lamports > u64::MAX - amount {
            return Err(LedgerError::Overflow);
        }
        let a2 = Account { address: a.address, lamports: a.lamports - amount, space: a.space, owner: a.owner };
        let b2 = Account { address: b.address, lamports: b.lamports + amount, space: b.space, owner: b.owner };
        proof {
            lemma_update(self.accounts@, i as int, a2);
            lemma_update(self.accounts@.update(i as int, a2), j as int, b2);
        }
        self.accounts.set(i, a2);
        self.accounts.set(j, b2);
        proof {
            assert forall|k: int| 0 <= k < self.mints@.len() implies contains_key(
                self.accounts@,
                #[trigger] self.mints@[k].key(),
            ) by {
                assert(contains_key(old(self).accounts@, self.mints@[k].key()));
            }
        }
        Ok(())
    }

    /// Why `initialize_mint` refuses, if it does.
    pub open spec fn initialize_mint_error(&self, mint: Seq<u8>) -> Option<LedgerError> {
        if !self.has_account(mint) {
            Some(LedgerError::AccountNotFound)
        } else if self.account(mint).owner@ != self.token_program_id@ {
            Some(LedgerError::InvalidAccountOwner)
        } else if self.account(mint).space != MINT_SIZE {
            Some(LedgerError::AccountSizeMismatch)
        } else if self.has_mint(mint) {
            Some(LedgerError::AlreadyInitialized)
        } else {
            None
        }
    }

    /// Turns an allocated account of the token program into a mint with no
    /// supply, whose supply only `mint_authority` may increase. A mint is
    /// initialized once.
    pub fn initialize_mint(
        &mut self,
        mint: &Address,
        decimals: u8,
        mint_authority: &Address,
        freeze_authority: Option<Address>,
    ) -> (r: Result<(), LedgerError>)
        requires
            old(self).wf(),
        ensures
            initialized(*old(self), *final(self), *mint, decimals, *mint_authority, freeze_authority, r),

    {
        let i = match position(&self.accounts, mint) {
            Some(i) => i,
            None => return Err(LedgerError::AccountNotFound),
        };
        let a = self.accounts[i];
        if !a.owner.same(&self.token_program_id) {
            return Err(LedgerError::InvalidAccountOwner);
        }
        if a.space != MINT_SIZE {
            return Err(LedgerError::AccountSizeMismatch);
        }
        if position(&self.mints, mint).is_some() {
            return Err(LedgerError::AlreadyInitialized);
        }
        let m = Mint { address: *mint, decimals, supply: 0, mint_authority: *mint_authority, freeze_authority };
        proof {
            lemma_push(self.mints@, m);
        }
        self.mints.push(m);
        proof {
            assert forall|k: int| 0 <= k < self.mints@.len() implies contains_key(
                self.accounts@,
                #[trigger] self.mints@[k].key(),
            ) by {
                if k < old(self).mints@.len() {
                    assert(self.mints@[k] == old(self).mints@[k]);
                }
            }
        }
        Ok(())
    }

    /// The associated token account of `owner` for `mint` on this ledger.
    pub open spec fn associated_address(&self, owner: Seq<u8>, mint: Seq<u8>) -> Option<Seq<u8>> {
        associated_address_of(owner, mint, self.token_program_id@, self.associated_token_program_id@)
    }

    /// Why provisioning the associated token account refuses, if it does.
    /// Where the account exists already, only the idempotent form succeeds,
    /// and only if the account is the owner's for that mint; where it does
    /// not, the payer must be able to allocate and fund it.
    pub open spec fn provision_error(&self, payer: Seq<u8>, owner: Seq<u8>, mint: Seq<u8>, idempotent: bool) -> Option<LedgerError> {
        if !self.has_mint(mint) {
            Some(LedgerError::UninitializedMint)
        } else if self.associated_address(owner, mint) is None {
            Some(LedgerError::InvalidSeeds)
        } else if self.has_token_account(self.associated_address(owner, mint)->0) {
            let t = self.token_account(self.associated_address(owner, mint)->0);
            if idempotent && t.owner@ == owner && t.mint@ == mint {
                None
            } else {
                Some(LedgerError::AccountAlreadyExists)
            }
        } else {
            self.create_account_error(payer, self.associated_address(owner, mint)->0, TOKEN_ACCOUNT_RENT)
        }
    }

    /// Provisions the associated token account of `owner` for `mint` and
    /// returns its address. A new one is allocated and funded by `payer`.
    /// The strict form fails where it exists already; the idempotent form
    /// then returns it unchanged.
    pub fn provision_token_account(
        &mut self,
        payer: &Address,
        owner: &Address,
        mint: &Address,
        idempotent: bool,
    ) -> (r: Result<Address, LedgerError>)
        requires
            old(self).wf(),
        ensures
            provisioned(*old(self), *final(self), *payer, *owner, *mint, idempotent, r),
    {
        if position(&self.mints, mint).is_none() {
            return Err(LedgerError::UninitializedMint);
        }
        let ata = match associated_token_address(
            owner,
            mint,
            &self.token_program_id,
            &self.associated_token_program_id,
        ) {
            Some(a) => a,
            None => return Err(LedgerError::InvalidSeeds),
        };
        match position(&self.token_accounts, &ata) {
            Some(i) => {
                let t = self.token_accounts[i];
                if idempotent && t.owner.same(owner) && t.mint.same(mint) {
                    Ok(ata)
                } else {
                    Err(LedgerError::AccountAlreadyExists)
                }
            },
            None => {
                let token_program = self.token_program_id;
                match self.create_account(payer, &ata, TOKEN_ACCOUNT_RENT, TOKEN_ACCOUNT_SIZE, &token_program) {
                    Ok(()) => {},
                    Err(e) => return Err(e),
                }
                let t = TokenAccount { address: ata, owner: *owner, mint: *mint, amount: 0 };
                proof {
                    lemma_push(self.token_accounts@, t);
                }
                self.token_accounts.push(t);
                Ok(ata)
            },
        }
    }

    /// Why `mint_to` refuses, if it does.
    pub open spec fn mint_to_error(&self, mint: Seq<u8>, destination: Seq<u8>, signer_seeds: Seq<Seq<u8>>, amount: u64) -> Option<LedgerError> {
        if !self.has_mint(mint) {
            Some(LedgerError::UninitializedMint)
        } else if !self.has_token_account(destination) {
            Some(LedgerError::AccountNotFound)
        } else if self.token_account(destination).mint@ != mint {
            Some(LedgerError::MintMismatch)
        } else if program_address(signer_seeds, self.program_id@) != Some(self.mint(mint).mint_authority@) {
            Some(LedgerError::AuthorityMismatch)
        } else if self.mint(mint).supply + amount > u64::MAX || self.token_account(destination).amount + amount > u64::MAX {
            Some(LedgerError::Overflow)
        } else {
            None
        }
    }

    /// Mints `amount` into `destination`, signed for by this program with
    /// `signer_seeds`: the seeds must derive the mint's authority.
    pub fn mint_to(&mut self, mint: &Address, destination: &Address, signer_seeds: &Vec<Vec<u8>>, amount: u64) -> (r: Result<(), LedgerError>)
        requires
            old(self).wf(),
        ensures
            minted(*old(self), *final(self), *mint, *destination, seeds_view(signer_seeds@), amount, r),

    {
        let i = match position(&self.mints, mint) {
            Some(i) => i,
            None => return Err(LedgerError::UninitializedMint),
        };
        let j = match position(&self.token_accounts, destination) {
            Some(j) => j,
            None => return Err(LedgerError::AccountNotFound),
        };
        let m = self.mints[i];
        let t = self.token_accounts[j];
        if !t.mint.same(mint) {
            return Err(LedgerError::MintMismatch);
        }
        if !signs_for(signer_seeds, &self.program_id, &m.mint_authority) {
            return Err(LedgerError::AuthorityMismatch);
        }
        if m.supply > u64::MAX - amount || t.amount > u64::MAX - amount {
            return Err(LedgerError::Overflow);
        }
        let m2 = Mint {
            address: m.address,
            decimals: m.decimals,
            supply: m.supply + amount,
            mint_authority: m.mint_authority,
            freeze_authority: m.freeze_authority,
        };
        let t2 = TokenAccount { address: t.address, owner: t.owner, mint: t.mint, amount: t.amount + amount };
        proof {
            lemma_update(self.mints@, i as int, m2);
            lemma_update(self.token_accounts@, j as int, t2);
        }
        self.mints.set(i, m2);
        self.token_accounts.set(j, t2);
        proof {
            assert forall|k: int| 0 <= k < self.mints@.len() implies contains_key(
                self.accounts@,
                #[trigger] self.mints@[k].key(),
            ) by {
                assert(self.mints@[k].key() == old(self).mints@[k].key());
            }
        }
        Ok(())
    }
}

/// What `initialize_mint` does to the ledger `pre`, leaving `post` and returning `r`.
pub open spec fn initialized(pre: Ledger, post: Ledger, mint: Address, decimals: u8, mint_authority: Address, freeze_authority: Option<Address>, r: Result<(), LedgerError>) -> bool {
    &&& post.wf()
    &&& post.same_config(&pre)
    &&& post.accounts@ == pre.accounts@
    &&& post.token_accounts@ == pre.token_accounts@
    &&& match pre.initialize_mint_error(mint@) {
        Some(e) => r == Err::<(), LedgerError>(e) && post.mints@ == pre.mints@,
        None => r is Ok && post.mints@ == pre.mints@.push(
            Mint {
                address: mint,
                decimals,
                supply: 0,
                mint_authority,
                freeze_authority,
            },
        )
    }
}

/// What `provision_token_account` does to the ledger `pre`, leaving `post` and returning `r`.
pub open spec fn provisioned(pre: Ledger, post: Ledger, payer: Address, owner: Address, mint: Address, idempotent: bool, r: Result<Address, LedgerError>) -> bool {
    &&& post.wf()
    &&& post.same_config(&pre)
    &&& post.mints@ == pre.mints@
    &&& match pre.provision_error(payer@, owner@, mint@, idempotent) {
        Some(e) => r == Err::<Address, LedgerError>(e) && post.token_accounts@
            == pre.token_accounts@ && post.accounts@ == pre.accounts@,
        None => r is Ok && Some(r->Ok_0@) == pre.associated_address(owner@, mint@) && (
        if pre.has_token_account(r->Ok_0@) {
            post.token_accounts@ == pre.token_accounts@ && post.accounts@ == pre.accounts@
        } else {
            post.token_accounts@ == pre.token_accounts@.push(
                TokenAccount { address: r->Ok_0, owner, mint, amount: 0 },
            ) && post.accounts@ == with_new_account(
                pre.accounts@,
                payer@,
                Account {
                    address: r->Ok_0,
                    lamports: TOKEN_ACCOUNT_RENT,
                    space: TOKEN_ACCOUNT_SIZE,
                    owner: pre.token_program_id,
                },
            )
        })
    }
}

/// What `mint_to` does to the ledger `pre`, leaving `post` and returning `r`.
pub open spec fn minted(pre: Ledger, post: Ledger, mint: Address, destination: Address, signer_seeds: Seq<Seq<u8>>, amount: u64, r: Result<(), LedgerError>) -> bool {
    &&& post.wf()
    &&& post.same_config(&pre)
    &&& post.accounts@ == pre.accounts@
    &&& match pre.mint_to_error(mint@, destination@, signer_seeds, amount) {
        Some(e) => r == Err::<(), LedgerError>(e) && post.mints@ == pre.mints@
            && post.token_accounts@ == pre.token_accounts@,
        None => r is Ok && post.mints@ == pre.mints@.update(
            index_of(pre.mints@, mint@),
            with_supply(pre.mint(mint@), pre.mint(mint@).supply + amount),
        ) && post.token_accounts@ == pre.token_accounts@.update(
            index_of(pre.token_accounts@, destination@),
            with_amount(
                pre.token_account(destination@),
                pre.token_account(destination@).amount + amount,
            ),
        )
    }
}

} // verus!
