//! What holds of the vault over several calls: the laws that the contracts
//! of the single operations imply, stated and proved.
use vstd::prelude::*;

use crate::address::Address;
use crate::derivation::{authority_of, found_view, program_address};
use crate::ledger::{
    initialized, minted, provisioned, with_lamports, with_supply, Ledger, LedgerError,
    TOKEN_ACCOUNT_RENT,
};
use crate::table::{index_of, lemma_index_of, lemma_push, lemma_update};
use crate::vault::{invest_error, invested, token_account_allocation, InvestVault};

verus! {

/// Deriving the authority of one seed under one program always yields the
/// same address and bump.
pub proof fn lemma_derivation_deterministic(
    seed: Seq<u8>,
    program: Seq<u8>,
    first: Option<(Address, u8)>,
    second: Option<(Address, u8)>,
)
    requires
        found_view(first) == authority_of(seed, program),
        found_view(second) == authority_of(seed, program),
    ensures
        found_view(first) == found_view(second),
{
}

/// The sum of the amounts of the investments that succeeded.
pub open spec fn credited(amounts: Seq<u64>, results: Seq<Result<Address, LedgerError>>) -> int
    decreases amounts.len(),
{
    if amounts.len() == 0 {
        0
    } else {
        credited(amounts.drop_last(), results.subrange(0, amounts.len() - 1)) + if results[amounts.len()
            - 1] is Ok {
            amounts.last() as int
        } else {
            0
        }
    }
}

/// One investment for `mint` adds its amount to the mint's supply and to the
/// treasury's native balance where it succeeds, and nothing where it fails.
pub proof fn lemma_investment_conserves(
    pre: Ledger,
    post: Ledger,
    ctx: InvestVault,
    amount: u64,
    r: Result<Address, LedgerError>,
)
    requires
        pre.wf(),
        invested(pre, post, ctx, amount, r),
        pre.has_mint(ctx.mint@),
        pre.has_account(pre.treasury@),
    ensures
        post.wf(),
        post.treasury == pre.treasury,
        post.has_mint(ctx.mint@),
        post.has_account(post.treasury@),
        post.mint(ctx.mint@).supply == pre.mint(ctx.mint@).supply + if r is Ok {
            amount as int
        } else {
            0
        },
        post.account(post.treasury@).lamports == pre.account(pre.treasury@).lamports + if r is Ok {
            amount as int
        } else {
            0
        },
{
    if invest_error(pre, ctx.investor@, ctx.vault@, ctx.mint@, amount) is None {
        let k = index_of(pre.mints@, ctx.mint@);
        let m = pre.mint(ctx.mint@);
        let m2 = with_supply(m, m.supply + amount);
        lemma_update(pre.mints@, k, m2);
        let s = pre.accounts@;
        let i = index_of(s, ctx.investor@);
        let j = index_of(s, ctx.vault@);
        let a2 = with_lamports(s[i], s[i].lamports - amount);
        let b2 = with_lamports(s[j], s[j].lamports + amount);
        lemma_update(s, i, a2);
        let t = s.update(i, a2);
        lemma_update(t, j, b2);
        let paid = t.update(j, b2);
        let ata = r->Ok_0;
        if !pre.has_token_account(ata@) {
            let payer = paid[i];
            let p2 = with_lamports(payer, payer.lamports - TOKEN_ACCOUNT_RENT);
            lemma_update(paid, i, p2);
            lemma_push(paid.update(i, p2), token_account_allocation(pre, ata));
        }
    }
}

/// Over any run of investments for one mint, the supply that the mint gains
/// equals the value that the treasury gains: both are the sum of the amounts
/// of the investments that succeeded. No quota token is ever minted without
/// its value reaching the treasury.
pub proof fn lemma_conservation(
    states: Seq<Ledger>,
    ctxs: Seq<InvestVault>,
    amounts: Seq<u64>,
    results: Seq<Result<Address, LedgerError>>,
    mint: Seq<u8>,
)
    requires
        states.len() == amounts.len() + 1,
        ctxs.len() == amounts.len(),
        results.len() == amounts.len(),
        states[0].wf(),
        states[0].has_mint(mint),
        states[0].has_account(states[0].treasury@),
        forall|i: int|
            0 <= i < amounts.len() ==> invested(
                #[trigger] states[i],
                states[i + 1],
                ctxs[i],
                amounts[i],
                results[i],
            ),
        forall|i: int| 0 <= i < amounts.len() ==> (#[trigger] ctxs[i]).mint@ == mint,
    ensures
        states.last().wf(),
        states.last().treasury == states[0].treasury,
        states.last().has_mint(mint),
        states.last().has_account(states[0].treasury@),
        states.last().mint(mint).supply == states[0].mint(mint).supply + credited(amounts, results),
        states.last().account(states[0].treasury@).lamports == states[0].account(
            states[0].treasury@,
        ).lamports + credited(amounts, results),
    decreases amounts.len(),
{
    let n = amounts.len() as int;
    if n > 0 {
        let states0 = states.drop_last();
        let ctxs0 = ctxs.drop_last();
        let amounts0 = amounts.drop_last();
        let results0 = results.subrange(0, n - 1);
        assert forall|i: int| 0 <= i < amounts0.len() implies invested(
            #[trigger] states0[i],
            states0[i + 1],
            ctxs0[i],
            amounts0[i],
            results0[i],
        ) by {
            assert(invested(states[i], states[i + 1], ctxs[i], amounts[i], results[i]));
        }
        assert forall|i: int| 0 <= i < amounts0.len() implies (#[trigger] ctxs0[i]).mint@ == mint by {
            assert(ctxs[i] == ctxs0[i]);
        }
        lemma_conservation(states0, ctxs0, amounts0, results0, mint);
        assert(invested(states[n - 1], states[n], ctxs[n - 1], amounts[n - 1], results[n - 1]));
        assert(ctxs[n - 1].mint@ == mint);
        lemma_investment_conserves(states[n - 1], states[n], ctxs[n - 1], amounts[n - 1], results[n - 1]);
    }
}

/// An investment whose investor holds less than the amount fails, and
/// leaves every balance and every supply as it was.
pub proof fn lemma_underfunded_investment(
    pre: Ledger,
    post: Ledger,
    ctx: InvestVault,
    amount: u64,
    r: Result<Address, LedgerError>,
)
    requires
        pre.wf(),
        invested(pre, post, ctx, amount, r),
        pre.has_account(ctx.investor@),
        pre.account(ctx.investor@).lamports < amount,
    ensures
        r is Err,
        post.same_state(&pre),
{
}

/// Minting signed with seeds that do not derive the mint's authority fails
/// and changes nothing.
pub proof fn lemma_only_the_authority_mints(
    pre: Ledger,
    post: Ledger,
    mint: Address,
    destination: Address,
    seeds: Seq<Seq<u8>>,
    amount: u64,
    r: Result<(), LedgerError>,
)
    requires
        pre.wf(),
        minted(pre, post, mint, destination, seeds, amount, r),
        pre.has_mint(mint@),
        program_address(seeds, pre.program_id@) != Some(pre.mint(mint@).mint_authority@),
    ensures
        r == Err::<(), LedgerError>(LedgerError::AuthorityMismatch) || r == Err::<(), LedgerError>(
            LedgerError::AccountNotFound,
        ) || r == Err::<(), LedgerError>(LedgerError::MintMismatch),
        post.same_state(&pre),
{
}

/// Provisioning the associated token account of one owner for one mint
/// twice, in the idempotent form, succeeds both times with the same address
/// and creates no second account.
pub proof fn lemma_provision_idempotent(
    l0: Ledger,
    l1: Ledger,
    l2: Ledger,
    payer: Address,
    owner: Address,
    mint: Address,
    r1: Result<Address, LedgerError>,
    r2: Result<Address, LedgerError>,
)
    requires
        l0.wf(),
        l0.provision_error(payer@, owner@, mint@, true) is None,
        provisioned(l0, l1, payer, owner, mint, true, r1),
        provisioned(l1, l2, payer, owner, mint, true, r2),
    ensures
        r1 is Ok,
        r2 is Ok,
        r1->Ok_0@ == r2->Ok_0@,
        l2.token_accounts@ == l1.token_accounts@,
        l2.accounts@ == l1.accounts@,
        l1.token_accounts@.len() <= l0.token_accounts@.len() + 1,
{
    let a = r1->Ok_0;
    if !l0.has_token_account(a@) {
        lemma_index_of(l1.token_accounts@, l0.token_accounts@.len() as int);
    }
    assert(l1.associated_address(owner@, mint@) == l0.associated_address(owner@, mint@));
    assert(l1.has_mint(mint@) == l0.has_mint(mint@));
}

/// A mint account is initialized once: a second initialization fails, and
/// where the first one succeeded it fails as already initialized.
pub proof fn lemma_initialize_once(
    l0: Ledger,
    l1: Ledger,
    l2: Ledger,
    mint: Address,
    decimals: (u8, u8),
    authorities: (Address, Address),
    freeze_authorities: (Option<Address>, Option<Address>),
    r1: Result<(), LedgerError>,
    r2: Result<(), LedgerError>,
)
    requires
        l0.wf(),
        initialized(l0, l1, mint, decimals.0, authorities.0, freeze_authorities.0, r1),
        initialized(l1, l2, mint, decimals.1, authorities.1, freeze_authorities.1, r2),
    ensures
        r2 is Err,
        r1 is Ok ==> r2 == Err::<(), LedgerError>(LedgerError::AlreadyInitialized),
{
    if r1 is Ok {
        lemma_index_of(l1.mints@, l0.mints@.len() as int);
    }
}

} // verus!
