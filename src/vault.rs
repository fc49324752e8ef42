//! The vault program's two flows: creating a quota-token mint whose authority
//! is the program-derived address of the seed "mint", and investing native
//! value in exchange for quota tokens minted one for one under that authority.
use vstd::prelude::*;

use crate::address::Address;
use crate::derivation::{associated_token_address, authority_of, derive_authority, signer_seeds};
use crate::ledger::{
    with_amount, with_lamports, with_new_account, with_supply, Account, Ledger, LedgerError, Mint,
    TokenAccount, MINT_SIZE, TOKEN_ACCOUNT_RENT, TOKEN_ACCOUNT_SIZE,
};
use crate::table::{entry, index_of, lemma_index_of, lemma_push, lemma_update, position};

verus! {

/// What a new vault's mint account is funded with.
pub const VAULT_RENT: u64 = 10_000_000;

/// The decimals of the quota token of `create_vault`.
pub const QUOTA_DECIMALS: u8 = 6;

/// The seed "mint" of the vault's authority.
pub open spec fn mint_seed() -> Seq<u8> {
    seq![109u8, 105u8, 110u8, 116u8]
}

/// The seed "mint" of the vault's authority.
pub fn authority_seed() -> (r: Vec<u8>)
    ensures
        r@ == mint_seed(),
{
    let r: Vec<u8> = vec![109u8, 105u8, 110u8, 116u8];
    proof {
        assert(r@ =~= mint_seed());
    }
    r
}

/// The accounts of `create_vault`: a fresh address for the mint, and the
/// signer who pays for it and receives the associated token account.
#[derive(Clone, Copy, Debug)]
pub struct CreateVault {
    pub mint_token: Address,
    pub signer: Address,
}

/// The accounts of `init_vault`: the payer. The mint lives at the
/// program-derived address.
#[derive(Clone, Copy, Debug)]
pub struct InitToken {
    pub payer: Address,
}

/// The parameters of `init_vault`: the token's descriptive metadata, which
/// the metadata service records, and the mint's decimals.
#[derive(Clone, Debug)]
pub struct InitVaultParams {
    pub name: String,
    pub symbol: String,
    pub uri: String,
    pub decimals: u8,
}

/// The accounts of `invest_vault`: the investor who pays, the vault account
/// that receives the value (it must be the ledger's treasury), and the
/// quota-token mint.
#[derive(Clone, Copy, Debug)]
pub struct InvestVault {
    pub investor: Address,
    pub vault: Address,
    pub mint: Address,
}

/// The vault authority of this ledger's program.
pub open spec fn vault_authority(l: Ledger) -> Option<(Seq<u8>, u8)> {
    authority_of(mint_seed(), l.program_id@)
}

/// The address of the vault authority, where there is one.
pub open spec fn vault_authority_address(l: Ledger) -> Seq<u8> {
    match vault_authority(l) {
        Some((a, _)) => a,
        None => Seq::empty(),
    }
}

/// The account that a new vault's mint occupies at `mint`.
pub open spec fn mint_account(l: Ledger, mint: Address) -> Account {
    Account { address: mint, lamports: VAULT_RENT, space: MINT_SIZE, owner: l.token_program_id }
}

/// The account that a new associated token account occupies at `a`.
pub open spec fn token_account_allocation(l: Ledger, a: Address) -> Account {
    Account { address: a, lamports: TOKEN_ACCOUNT_RENT, space: TOKEN_ACCOUNT_SIZE, owner: l.token_program_id }
}

/// Why `create_vault` refuses, if it does.
pub open spec fn create_vault_error(l: Ledger, signer: Seq<u8>, mint: Seq<u8>) -> Option<LedgerError> {
    if vault_authority(l) is None || l.associated_address(signer, mint) is None {
        Some(LedgerError::InvalidSeeds)
    } else if l.has_token_account(l.associated_address(signer, mint)->0) || l.has_account(
        l.associated_address(signer, mint)->0,
    ) || l.associated_address(signer, mint)->0 == mint {
        Some(LedgerError::AccountAlreadyExists)
    } else if !l.has_account(signer) {
        Some(LedgerError::AccountNotFound)
    } else if l.has_account(mint) {
        Some(LedgerError::AccountAlreadyExists)
    } else if l.account(signer).lamports < VAULT_RENT + TOKEN_ACCOUNT_RENT {
        Some(LedgerError::InsufficientFunds)
    } else {
        None
    }
}

/// Creates a vault: allocates the mint account at `mint_token`, paid by the
/// signer; initializes it as a mint whose authority is the program-derived
/// address of "mint"; and allocates the signer's associated token account,
/// paid by the signer too. Returns that account's address. All of it
/// happens, or none of it.
pub fn create_vault(ledger: &mut Ledger, ctx: &CreateVault) -> (r: Result<Address, LedgerError>)
    requires
        old(ledger).wf(),
    ensures
        final(ledger).wf(),
        final(ledger).same_config(old(ledger)),
        match create_vault_error(*old(ledger), ctx.signer@, ctx.mint_token@) {
            Some(e) => r == Err::<Address, LedgerError>(e) && final(ledger).same_state(old(ledger)),
            None => r is Ok && Some(r->Ok_0@) == old(ledger).associated_address(
                ctx.signer@,
                ctx.mint_token@,
            ) && final(ledger).accounts@ == with_new_account(
                with_new_account(
                    old(ledger).accounts@,
                    ctx.signer@,
                    mint_account(*old(ledger), ctx.mint_token),
                ),
                ctx.signer@,
                token_account_allocation(*old(ledger), r->Ok_0),
            ) && final(ledger).mints@.len() == old(ledger).mints@.len() + 1
                && final(ledger).mints@.drop_last() == old(ledger).mints@
                && final(ledger).mints@.last().address == ctx.mint_token
                && final(ledger).mints@.last().decimals == QUOTA_DECIMALS
                && final(ledger).mints@.last().supply == 0
                && final(ledger).mints@.last().mint_authority@ == vault_authority_address(*old(ledger))
                && final(ledger).mints@.last().freeze_authority is None
                && final(ledger).token_accounts@ == old(ledger).token_accounts@.push(
                    TokenAccount { address: r->Ok_0, owner: ctx.signer, mint: ctx.mint_token, amount: 0 },
                ),
        },
{
    let seed = authority_seed();
    let authority = match derive_authority(&seed, &ledger.program_id) {
        Some((a, _)) => a,
        None => return Err(LedgerError::InvalidSeeds),
    };
    let ata = match associated_token_address(
        &ctx.signer,
        &ctx.mint_token,
        &ledger.token_program_id,
        &ledger.associated_token_program_id,
    ) {
        Some(a) => a,
        None => return Err(LedgerError::InvalidSeeds),
    };
    if position(&ledger.token_accounts, &ata).is_some() || position(&ledger.accounts, &ata).is_some()
        || ata.same(&ctx.mint_token) {
        return Err(LedgerError::AccountAlreadyExists);
    }
    let ip = match position(&ledger.accounts, &ctx.signer) {
        Some(i) => i,
        None => return Err(LedgerError::AccountNotFound),
    };
    if position(&ledger.accounts, &ctx.mint_token).is_some() {
        return Err(LedgerError::AccountAlreadyExists);
    }
    if ledger.accounts[ip].lamports < VAULT_RENT + TOKEN_ACCOUNT_RENT {
        return Err(LedgerError::InsufficientFunds);
    }
    let token_program = ledger.token_program_id;
    let created = ledger.create_account(&ctx.signer, &ctx.mint_token, VAULT_RENT, MINT_SIZE, &token_program);
    proof {
        let s = old(ledger).accounts@;
        let i = ip as int;
        let q = with_lamports(s[i], s[i].lamports - VAULT_RENT);
        lemma_update(s, i, q);
        lemma_push(s.update(i, q), mint_account(*old(ledger), ctx.mint_token));
        let n = s.len() as int;
        lemma_index_of(ledger.accounts@, n);
        assert(!old(ledger).has_mint(ctx.mint_token@));
        assert(ledger.has_account(ctx.signer@));
        assert(!ledger.has_account(ata@));
    }
    let init = ledger.initialize_mint(&ctx.mint_token, QUOTA_DECIMALS, &authority, None);
    let provisioned = ledger.provision_token_account(&ctx.signer, &ctx.signer, &ctx.mint_token, false);
    proof {
        assert(created is Ok);
        assert(init is Ok);
        lemma_index_of(ledger.mints@, old(ledger).mints@.len() as int);
        assert(ledger.mints@.drop_last() =~= old(ledger).mints@);
    }
    provisioned
}

/// Why `init_vault` refuses, if it does.
pub open spec fn init_vault_error(l: Ledger, payer: Seq<u8>) -> Option<LedgerError> {
    if vault_authority(l) is None {
        Some(LedgerError::InvalidSeeds)
    } else {
        l.create_account_error(payer, vault_authority_address(l), VAULT_RENT)
    }
}

/// Creates a vault whose mint lives at the program-derived address of
/// "mint" and is its own authority: allocates that account, paid by the
/// payer, and initializes it with the decimals of `metadata`. Returns the
/// mint's address. All of it happens, or none of it.
pub fn init_vault(ledger: &mut Ledger, ctx: &InitToken, metadata: &InitVaultParams) -> (r: Result<Address, LedgerError>)
    requires
        old(ledger).wf(),
    ensures
        final(ledger).wf(),
        final(ledger).same_config(old(ledger)),
        match init_vault_error(*old(ledger), ctx.payer@) {
            Some(e) => r == Err::<Address, LedgerError>(e) && final(ledger).same_state(old(ledger)),
            None => r is Ok && r->Ok_0@ == vault_authority_address(*old(ledger))
                && final(ledger).accounts@ == with_new_account(
                    old(ledger).accounts@,
                    ctx.payer@,
                    mint_account(*old(ledger), r->Ok_0),
                ) && final(ledger).mints@ == old(ledger).mints@.push(
                    Mint {
                        address: r->Ok_0,
                        decimals: metadata.decimals,
                        supply: 0,
                        mint_authority: r->Ok_0,
                        freeze_authority: None,
                    },
                ) && final(ledger).token_accounts@ == old(ledger).token_accounts@,
        },
{
    let seed = authority_seed();
    let authority = match derive_authority(&seed, &ledger.program_id) {
        Some((a, _)) => a,
        None => return Err(LedgerError::InvalidSeeds),
    };
    let token_program = ledger.token_program_id;
    match ledger.create_account(&ctx.payer, &authority, VAULT_RENT, MINT_SIZE, &token_program) {
        Ok(()) => {},
        Err(e) => return Err(e),
    }
    proof {
        let n = old(ledger).accounts@.len() as int;
        lemma_index_of(ledger.accounts@, n);
        assert(!old(ledger).has_mint(authority@));
    }
    let init = ledger.initialize_mint(&authority, metadata.decimals, &authority, None);
    proof {
        assert(init is Ok);
    }
    Ok(authority)
}

/// Why `invest_vault` refuses, if it does.
pub open spec fn invest_error(l: Ledger, investor: Seq<u8>, vault: Seq<u8>, mint: Seq<u8>, amount: u64) -> Option<LedgerError> {
    let ata = l.associated_address(investor, mint)->0;
    if amount == 0 {
        Some(LedgerError::InvalidAmount)
    } else if vault != l.treasury@ || investor == l.treasury@ {
        Some(LedgerError::InvalidVault)
    } else if vault_authority(l) is None {
        Some(LedgerError::InvalidSeeds)
    } else if !l.has_mint(mint) {
        Some(LedgerError::UninitializedMint)
    } else if l.mint(mint).mint_authority@ != vault_authority_address(l) {
        Some(LedgerError::AuthorityMismatch)
    } else if l.associated_address(investor, mint) is None {
        Some(LedgerError::InvalidSeeds)
    } else if l.has_token_account(ata) && (l.token_account(ata).owner@ != investor
        || l.token_account(ata).mint@ != mint) {
        Some(LedgerError::AccountAlreadyExists)
    } else if !l.has_token_account(ata) && l.has_account(ata) {
        Some(LedgerError::AccountAlreadyExists)
    } else if l.mint(mint).supply + amount > u64::MAX || (l.has_token_account(ata)
        && l.token_account(ata).amount + amount > u64::MAX) {
        Some(LedgerError::Overflow)
    } else if l.transfer_error(investor, vault, amount) is Some {
        l.transfer_error(investor, vault, amount)
    } else if !l.has_token_account(ata) && l.account(investor).lamports < amount + TOKEN_ACCOUNT_RENT {
        Some(LedgerError::InsufficientFunds)
    } else {
        None
    }
}

/// The token accounts once the investor's associated account `ata` exists.
pub open spec fn tokens_with_destination(l: Ledger, ata: Address, investor: Address, mint: Address) -> Seq<TokenAccount> {
    if l.has_token_account(ata@) {
        l.token_accounts@
    } else {
        l.token_accounts@.push(TokenAccount { address: ata, owner: investor, mint, amount: 0 })
    }
}

/// The accounts after the investor pays `amount` into the treasury and, if
/// its associated account `ata` is missing, funds that account.
pub open spec fn accounts_after_investment(l: Ledger, investor: Seq<u8>, ata: Address, amount: u64) -> Seq<Account> {
    let paid = l.after_transfer(investor, l.treasury@, amount);
    if l.has_token_account(ata@) {
        paid
    } else {
        with_new_account(paid, investor, token_account_allocation(l, ata))
    }
}

/// What `invest_vault` does to the ledger `pre`, leaving `post` and returning `r`.
pub open spec fn invested(pre: Ledger, post: Ledger, ctx: InvestVault, amount: u64, r: Result<Address, LedgerError>) -> bool {
    &&& post.wf()
    &&& post.same_config(&pre)
    &&& match invest_error(pre, ctx.investor@, ctx.vault@, ctx.mint@, amount) {
        Some(e) => r == Err::<Address, LedgerError>(e) && post.same_state(&pre),
        None => r is Ok && Some(r->Ok_0@) == pre.associated_address(ctx.investor@, ctx.mint@)
            && post.accounts@ == accounts_after_investment(pre, ctx.investor@, r->Ok_0, amount)
            && post.mints@ == pre.mints@.update(
                index_of(pre.mints@, ctx.mint@),
                with_supply(pre.mint(ctx.mint@), pre.mint(ctx.mint@).supply + amount),
            ) && post.token_accounts@ == ({
                let mid = tokens_with_destination(pre, r->Ok_0, ctx.investor, ctx.mint);
                mid.update(
                    index_of(mid, r->Ok_0@),
                    with_amount(entry(mid, r->Ok_0@), entry(mid, r->Ok_0@).amount + amount),
                )
            }),
    }
}

/// Invests `amount` of native value: moves it from the investor into the
/// treasury, allocates the investor's associated token account if it is
/// missing (paid by the investor), and then mints `amount` quota tokens into
/// it, signed for with the seed "mint" and its bump. Returns the
/// destination's address. The value moves before anything is minted, and
/// either all of it happens or none of it.
pub fn invest_vault(ledger: &mut Ledger, ctx: &InvestVault, amount: u64) -> (r: Result<Address, LedgerError>)
    requires
        old(ledger).wf(),
    ensures
        invested(*old(ledger), *final(ledger), *ctx, amount, r),
{
    if amount == 0 {
        return Err(LedgerError::InvalidAmount);
    }
    if !ctx.vault.same(&ledger.treasury) || ctx.investor.same(&ledger.treasury) {
        return Err(LedgerError::InvalidVault);
    }
    let seed = authority_seed();
    let (authority, bump) = match derive_authority(&seed, &ledger.program_id) {
        Some(found) => found,
        None => return Err(LedgerError::InvalidSeeds),
    };
    let im = match position(&ledger.mints, &ctx.mint) {
        Some(i) => i,
        None => return Err(LedgerError::UninitializedMint),
    };
    let m = ledger.mints[im];
    if !m.mint_authority.same(&authority) {
        return Err(LedgerError::AuthorityMismatch);
    }
    let ata = match associated_token_address(
        &ctx.investor,
        &ctx.mint,
        &ledger.token_program_id,
        &ledger.associated_token_program_id,
    ) {
        Some(a) => a,
        None => return Err(LedgerError::InvalidSeeds),
    };
    let existing = position(&ledger.token_accounts, &ata);
    let held: u64 = match existing {
        Some(j) => {
            let t = ledger.token_accounts[j];
            if !t.owner.same(&ctx.investor) || !t.mint.same(&ctx.mint) {
                return Err(LedgerError::AccountAlreadyExists);
            }
            t.amount
        },
        None => {
            if position(&ledger.accounts, &ata).is_some() {
                return Err(LedgerError::AccountAlreadyExists);
            }
            0
        },
    };
    if m.supply > u64::MAX - amount || held > u64::MAX - amount {
        return Err(LedgerError::Overflow);
    }
    if existing.is_none() {
        match (position(&ledger.accounts, &ctx.investor), position(&ledger.accounts, &ctx.vault)) {
            (Some(i), Some(j)) => {
                let paying = ledger.accounts[i].lamports;
                if paying >= amount && ledger.accounts[j].lamports <= u64::MAX - amount && paying
                    - amount < TOKEN_ACCOUNT_RENT {
                    return Err(LedgerError::InsufficientFunds);
                }
            },
            _ => {},
        }
    }
    match ledger.transfer_value(&ctx.investor, &ctx.vault, amount) {
        Ok(()) => {},
        Err(e) => return Err(e),
    }
    proof {
        let s = old(ledger).accounts@;
        let i = index_of(s, ctx.investor@);
        let j = index_of(s, ctx.vault@);
        let a2 = with_lamports(s[i], s[i].lamports - amount);
        let b2 = with_lamports(s[j], s[j].lamports + amount);
        lemma_update(s, i, a2);
        lemma_update(s.update(i, a2), j, b2);
    }
    let destination = match ledger.provision_token_account(&ctx.investor, &ctx.investor, &ctx.mint, true) {
        Ok(d) => d,
        Err(e) => return Err(e),
    };
    proof {
        let mid = tokens_with_destination(*old(ledger), destination, ctx.investor, ctx.mint);
        assert(ledger.token_accounts@ == mid);
        if !old(ledger).has_token_account(ata@) {
            lemma_index_of(mid, old(ledger).token_accounts@.len() as int);
        }
        assert(ledger.has_token_account(destination@));
    }
    let seeds = signer_seeds(&seed, bump);
    let minted = ledger.mint_to(&ctx.mint, &destination, &seeds, amount);
    proof {
        assert(minted is Ok);
    }
    Ok(destination)
}

} // verus!
