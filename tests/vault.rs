use anchor_spl::associated_token::get_associated_token_address;
use solana_program::pubkey::Pubkey;
use vault_minter::address::Address;
use vault_minter::derivation::{associated_token_address, derive_authority, signer_seeds, signs_for};
use vault_minter::ledger::{Ledger, LedgerError, MINT_SIZE, TOKEN_ACCOUNT_RENT};
use vault_minter::vault::{
    authority_seed, create_vault, init_vault, invest_vault, CreateVault, InitToken,
    InitVaultParams, InvestVault, QUOTA_DECIMALS, VAULT_RENT,
};

fn addr(b: u8) -> Address {
    Address::new([b; 32])
}

fn program() -> Address {
    addr(42)
}

fn token_program() -> Address {
    Address::new(anchor_spl::token::ID.to_bytes())
}

fn ledger() -> Ledger {
    Ledger::new(
        program(),
        token_program(),
        Address::new(anchor_spl::associated_token::ID.to_bytes()),
        treasury(),
    )
}

fn treasury() -> Address {
    addr(99)
}

fn authority() -> (Address, u8) {
    derive_authority(&authority_seed(), &program()).unwrap()
}

fn params(decimals: u8) -> InitVaultParams {
    InitVaultParams {
        name: "Quota".to_string(),
        symbol: "QTA".to_string(),
        uri: "https://example.org/quota.json".to_string(),
        decimals,
    }
}

#[test]
fn derive_authority_is_deterministic() {
    let first = derive_authority(&authority_seed(), &program()).unwrap();
    let second = derive_authority(&authority_seed(), &program()).unwrap();
    assert_eq!(first, second);
    let (expected, bump) =
        Pubkey::find_program_address(&[b"mint"], &Pubkey::new_from_array([42u8; 32]));
    assert_eq!(first.0, Address::new(expected.to_bytes()));
    assert_eq!(first.1, bump);
    assert!(!expected.is_on_curve());
}

#[test]
fn derive_authority_differs_by_program() {
    let a = derive_authority(&authority_seed(), &addr(1)).unwrap();
    let b = derive_authority(&authority_seed(), &addr(2)).unwrap();
    assert_ne!(a.0, b.0);
}

#[test]
fn derive_authority_refuses_long_seed() {
    let seed = vec![1u8; 33];
    assert_eq!(derive_authority(&seed, &program()), None);
}

#[test]
fn signer_seeds_sign_only_with_the_right_bump() {
    let (auth, bump) = authority();
    let good = signer_seeds(&authority_seed(), bump);
    assert_eq!(good, vec![b"mint".to_vec(), vec![bump]]);
    assert!(signs_for(&good, &program(), &auth));
    let bad = signer_seeds(&authority_seed(), bump.wrapping_sub(1));
    assert!(!signs_for(&bad, &program(), &auth));
    assert!(!signs_for(&good, &addr(43), &auth));
}

#[test]
fn associated_address_matches_the_token_programs() {
    let owner = addr(5);
    let mint = addr(6);
    let ours = associated_token_address(
        &owner,
        &mint,
        &token_program(),
        &Address::new(anchor_spl::associated_token::ID.to_bytes()),
    )
    .unwrap();
    let theirs = get_associated_token_address(
        &Pubkey::new_from_array([5u8; 32]),
        &Pubkey::new_from_array([6u8; 32]),
    );
    assert_eq!(ours, Address::new(theirs.to_bytes()));
    assert_ne!(ours, owner);
}

#[test]
fn address_comparison_and_seed() {
    assert!(addr(1).same(&addr(1)));
    assert!(!addr(1).same(&addr(2)));
    let mut bytes = [0u8; 32];
    bytes[31] = 9;
    assert!(!Address::new(bytes).same(&addr(0)));
    assert_eq!(Address::new(bytes).to_seed(), bytes.to_vec());
}

#[test]
fn open_account_once() {
    let mut l = ledger();
    assert_eq!(l.open_account(&addr(1), 500), Ok(()));
    assert_eq!(l.lamports(&addr(1)), Some(500));
    assert_eq!(l.open_account(&addr(1), 7), Err(LedgerError::AccountAlreadyExists));
    assert_eq!(l.lamports(&addr(1)), Some(500));
    assert_eq!(l.lamports(&addr(2)), None);
}

#[test]
fn create_account_moves_funds_and_refuses_reuse() {
    let mut l = ledger();
    l.open_account(&addr(1), 100).unwrap();
    let tp = token_program();
    assert_eq!(l.create_account(&addr(9), &addr(2), 10, 82, &tp), Err(LedgerError::AccountNotFound));
    assert_eq!(l.create_account(&addr(1), &addr(2), 101, 82, &tp), Err(LedgerError::InsufficientFunds));
    assert_eq!(l.create_account(&addr(1), &addr(2), 30, 82, &tp), Ok(()));
    assert_eq!(l.lamports(&addr(1)), Some(70));
    assert_eq!(l.lamports(&addr(2)), Some(30));
    assert_eq!(l.create_account(&addr(1), &addr(2), 30, 82, &tp), Err(LedgerError::AccountAlreadyExists));
    assert_eq!(l.lamports(&addr(1)), Some(70));
}

#[test]
fn transfer_value_moves_exact_amounts() {
    let mut l = ledger();
    l.open_account(&addr(1), 100).unwrap();
    l.open_account(&addr(2), u64::MAX - 5).unwrap();
    l.open_account(&addr(3), 0).unwrap();
    assert_eq!(l.transfer_value(&addr(1), &addr(3), 40), Ok(()));
    assert_eq!(l.lamports(&addr(1)), Some(60));
    assert_eq!(l.lamports(&addr(3)), Some(40));
    assert_eq!(l.transfer_value(&addr(1), &addr(3), 61), Err(LedgerError::InsufficientFunds));
    assert_eq!(l.transfer_value(&addr(1), &addr(2), 6), Err(LedgerError::Overflow));
    assert_eq!(l.transfer_value(&addr(1), &addr(8), 1), Err(LedgerError::AccountNotFound));
    assert_eq!(l.transfer_value(&addr(1), &addr(1), 60), Ok(()));
    assert_eq!(l.lamports(&addr(1)), Some(60));
    assert_eq!(l.lamports(&addr(2)), Some(u64::MAX - 5));
}

#[test]
fn initialize_mint_checks_the_account() {
    let mut l = ledger();
    let tp = token_program();
    l.open_account(&addr(1), 1000).unwrap();
    assert_eq!(l.initialize_mint(&addr(2), 6, &addr(1), None), Err(LedgerError::AccountNotFound));
    assert_eq!(l.initialize_mint(&addr(1), 6, &addr(1), None), Err(LedgerError::InvalidAccountOwner));
    l.create_account(&addr(1), &addr(3), 10, 40, &tp).unwrap();
    assert_eq!(l.initialize_mint(&addr(3), 6, &addr(1), None), Err(LedgerError::AccountSizeMismatch));
    l.create_account(&addr(1), &addr(2), 10, MINT_SIZE, &tp).unwrap();
    assert_eq!(l.initialize_mint(&addr(2), 9, &addr(1), Some(addr(4))), Ok(()));
    let m = l.mint_state(&addr(2)).unwrap();
    assert_eq!(m.decimals, 9);
    assert_eq!(m.supply, 0);
    assert_eq!(m.mint_authority, addr(1));
    assert_eq!(m.freeze_authority, Some(addr(4)));
}

#[test]
fn initialize_mint_twice_fails() {
    let mut l = ledger();
    let tp = token_program();
    l.open_account(&addr(1), 1000).unwrap();
    l.create_account(&addr(1), &addr(2), 10, MINT_SIZE, &tp).unwrap();
    assert_eq!(l.initialize_mint(&addr(2), 6, &addr(1), None), Ok(()));
    assert_eq!(l.initialize_mint(&addr(2), 2, &addr(7), None), Err(LedgerError::AlreadyInitialized));
    let m = l.mint_state(&addr(2)).unwrap();
    assert_eq!(m.decimals, 6);
    assert_eq!(m.mint_authority, addr(1));
}

#[test]
fn provisioning_twice_is_idempotent() {
    let mut l = ledger();
    let tp = token_program();
    l.open_account(&addr(1), 10_000_000).unwrap();
    assert_eq!(l.provision_token_account(&addr(1), &addr(5), &addr(2), true), Err(LedgerError::UninitializedMint));
    l.create_account(&addr(1), &addr(2), 10, MINT_SIZE, &tp).unwrap();
    l.initialize_mint(&addr(2), 6, &addr(1), None).unwrap();
    let first = l.provision_token_account(&addr(1), &addr(5), &addr(2), true).unwrap();
    let second = l.provision_token_account(&addr(1), &addr(5), &addr(2), true).unwrap();
    assert_eq!(first, second);
    assert_eq!(l.token_accounts.len(), 1);
    assert_eq!(l.lamports(&addr(1)), Some(10_000_000 - 10 - TOKEN_ACCOUNT_RENT));
    let t = l.token_account_state(&first).unwrap();
    assert_eq!(t.owner, addr(5));
    assert_eq!(t.mint, addr(2));
    assert_eq!(t.amount, 0);
    assert_eq!(
        l.provision_token_account(&addr(1), &addr(5), &addr(2), false),
        Err(LedgerError::AccountAlreadyExists)
    );
    assert_eq!(l.token_accounts.len(), 1);
}

fn pda_vault(l: &mut Ledger, payer: &Address, decimals: u8) -> Address {
    init_vault(l, &InitToken { payer: *payer }, &params(decimals)).unwrap()
}

#[test]
fn mint_with_wrong_bump_fails() {
    let mut l = ledger();
    l.open_account(&addr(1), 100_000_000).unwrap();
    let mint = pda_vault(&mut l, &addr(1), 6);
    let dest = l.provision_token_account(&addr(1), &addr(1), &mint, true).unwrap();
    let (_, bump) = authority();
    let bad = signer_seeds(&authority_seed(), bump.wrapping_sub(1));
    assert_eq!(l.mint_to(&mint, &dest, &bad, 10), Err(LedgerError::AuthorityMismatch));
    let other = signer_seeds(&b"vault".to_vec(), bump);
    assert_eq!(l.mint_to(&mint, &dest, &other, 10), Err(LedgerError::AuthorityMismatch));
    assert_eq!(l.supply(&mint), Some(0));
    assert_eq!(l.token_balance(&dest), Some(0));
    let good = signer_seeds(&authority_seed(), bump);
    assert_eq!(l.mint_to(&mint, &dest, &good, 10), Ok(()));
    assert_eq!(l.supply(&mint), Some(10));
    assert_eq!(l.token_balance(&dest), Some(10));
    assert_eq!(l.mint_to(&mint, &addr(77), &good, 10), Err(LedgerError::AccountNotFound));
    assert_eq!(l.mint_to(&addr(1), &dest, &good, 10), Err(LedgerError::UninitializedMint));
    assert_eq!(l.mint_to(&mint, &dest, &good, u64::MAX), Err(LedgerError::Overflow));
}

#[test]
fn mint_to_refuses_other_mints_account() {
    let mut l = ledger();
    let tp = token_program();
    l.open_account(&addr(1), 100_000_000).unwrap();
    let mint = pda_vault(&mut l, &addr(1), 6);
    l.create_account(&addr(1), &addr(2), 10, MINT_SIZE, &tp).unwrap();
    l.initialize_mint(&addr(2), 6, &addr(1), None).unwrap();
    let other = l.provision_token_account(&addr(1), &addr(1), &addr(2), true).unwrap();
    let (_, bump) = authority();
    let good = signer_seeds(&authority_seed(), bump);
    assert_eq!(l.mint_to(&mint, &other, &good, 1), Err(LedgerError::MintMismatch));
}

#[test]
fn init_vault_puts_the_mint_at_the_authority() {
    let mut l = ledger();
    l.open_account(&addr(1), 20_000_000).unwrap();
    let mint = pda_vault(&mut l, &addr(1), 9);
    let (auth, _) = authority();
    assert_eq!(mint, auth);
    let m = l.mint_state(&mint).unwrap();
    assert_eq!(m.decimals, 9);
    assert_eq!(m.mint_authority, auth);
    assert_eq!(m.freeze_authority, None);
    assert_eq!(l.lamports(&addr(1)), Some(20_000_000 - VAULT_RENT));
    assert_eq!(l.lamports(&mint), Some(VAULT_RENT));
    assert_eq!(
        init_vault(&mut l, &InitToken { payer: addr(1) }, &params(9)),
        Err(LedgerError::AccountAlreadyExists)
    );
}

#[test]
fn init_vault_needs_funds() {
    let mut l = ledger();
    l.open_account(&addr(1), VAULT_RENT - 1).unwrap();
    assert_eq!(
        init_vault(&mut l, &InitToken { payer: addr(1) }, &params(6)),
        Err(LedgerError::InsufficientFunds)
    );
    assert_eq!(l.lamports(&addr(1)), Some(VAULT_RENT - 1));
    assert_eq!(l.accounts.len(), 1);
    assert!(l.mints.is_empty());
}

#[test]
fn create_vault_makes_mint_and_account() {
    let mut l = ledger();
    l.open_account(&addr(1), 50_000_000).unwrap();
    let ctx = CreateVault { mint_token: addr(2), signer: addr(1) };
    let ata = create_vault(&mut l, &ctx).unwrap();
    let m = l.mint_state(&addr(2)).unwrap();
    assert_eq!(m.decimals, QUOTA_DECIMALS);
    assert_eq!(m.mint_authority, authority().0);
    assert_eq!(m.supply, 0);
    let t = l.token_account_state(&ata).unwrap();
    assert_eq!(t.owner, addr(1));
    assert_eq!(t.mint, addr(2));
    assert_eq!(l.lamports(&addr(1)), Some(50_000_000 - VAULT_RENT - TOKEN_ACCOUNT_RENT));
    assert_eq!(l.lamports(&addr(2)), Some(VAULT_RENT));
    assert_eq!(l.lamports(&ata), Some(TOKEN_ACCOUNT_RENT));
    assert_eq!(create_vault(&mut l, &ctx), Err(LedgerError::AccountAlreadyExists));
    assert_eq!(l.mints.len(), 1);
    assert_eq!(l.lamports(&addr(1)), Some(50_000_000 - VAULT_RENT - TOKEN_ACCOUNT_RENT));
}

#[test]
fn create_vault_without_payer_changes_nothing() {
    let mut l = ledger();
    let ctx = CreateVault { mint_token: addr(2), signer: addr(1) };
    assert_eq!(create_vault(&mut l, &ctx), Err(LedgerError::AccountNotFound));
    assert!(l.accounts.is_empty());
    assert!(l.mints.is_empty());
    assert!(l.token_accounts.is_empty());
}

fn vault_ledger() -> (Ledger, Address) {
    let mut l = ledger();
    l.open_account(&addr(1), 50_000_000).unwrap();
    let ctx = CreateVault { mint_token: addr(2), signer: addr(1) };
    create_vault(&mut l, &ctx).unwrap();
    l.open_account(&treasury(), 0).unwrap();
    (l, addr(2))
}

#[test]
fn end_to_end_invest_twice() {
    let (mut l, mint) = vault_ledger();
    l.open_account(&addr(3), 2_000_000 + TOKEN_ACCOUNT_RENT).unwrap();
    let ctx = InvestVault { investor: addr(3), vault: treasury(), mint };
    let dest = invest_vault(&mut l, &ctx, 1_000_000).unwrap();
    assert_eq!(l.token_balance(&dest), Some(1_000_000));
    assert_eq!(l.lamports(&dest), Some(TOKEN_ACCOUNT_RENT));
    let again = invest_vault(&mut l, &ctx, 500_000).unwrap();
    assert_eq!(again, dest);
    assert_eq!(l.token_balance(&dest), Some(1_500_000));
    assert_eq!(l.supply(&mint), Some(1_500_000));
    assert_eq!(l.lamports(&addr(3)), Some(500_000));
    assert_eq!(l.lamports(&treasury()), Some(1_500_000));
    assert_eq!(l.mint_state(&mint).unwrap().decimals, 6);
}

#[test]
fn end_to_end_with_derived_mint() {
    let mut l = ledger();
    l.open_account(&addr(1), 50_000_000).unwrap();
    l.open_account(&addr(3), 2_000_000 + TOKEN_ACCOUNT_RENT).unwrap();
    l.open_account(&treasury(), 0).unwrap();
    let mint = pda_vault(&mut l, &addr(1), 6);
    let ctx = InvestVault { investor: addr(3), vault: treasury(), mint };
    let dest = invest_vault(&mut l, &ctx, 1_000_000).unwrap();
    assert_eq!(l.token_balance(&dest), Some(1_000_000));
    invest_vault(&mut l, &ctx, 500_000).unwrap();
    assert_eq!(l.token_balance(&dest), Some(1_500_000));
    assert_eq!(l.lamports(&treasury()), Some(1_500_000));
}

#[test]
fn conservation_over_three_investments() {
    let (mut l, mint) = vault_ledger();
    l.open_account(&addr(3), 1_000 + TOKEN_ACCOUNT_RENT).unwrap();
    l.open_account(&addr(4), 1_000 + TOKEN_ACCOUNT_RENT).unwrap();
    let investors = [addr(3), addr(4), addr(3)];
    let amounts = [100u64, 250, 50];
    for (who, amount) in investors.iter().zip(amounts.iter()) {
        let ctx = InvestVault { investor: *who, vault: treasury(), mint };
        invest_vault(&mut l, &ctx, *amount).unwrap();
    }
    assert_eq!(l.supply(&mint), Some(400));
    assert_eq!(l.lamports(&treasury()), Some(400));
    assert_eq!(l.lamports(&addr(3)), Some(850));
    assert_eq!(l.lamports(&addr(4)), Some(750));
}

#[test]
fn underfunded_investment_changes_nothing() {
    let (mut l, mint) = vault_ledger();
    l.open_account(&addr(3), 10).unwrap();
    let ctx = InvestVault { investor: addr(3), vault: treasury(), mint };
    assert_eq!(invest_vault(&mut l, &ctx, 20), Err(LedgerError::InsufficientFunds));
    assert_eq!(l.lamports(&addr(3)), Some(10));
    assert_eq!(l.lamports(&treasury()), Some(0));
    assert_eq!(l.supply(&mint), Some(0));
    assert_eq!(l.token_accounts.len(), 1);
}

#[test]
fn invest_refusals() {
    let (mut l, mint) = vault_ledger();
    l.open_account(&addr(3), 1_000).unwrap();
    let ctx = InvestVault { investor: addr(3), vault: treasury(), mint };
    assert_eq!(invest_vault(&mut l, &ctx, 0), Err(LedgerError::InvalidAmount));
    let no_mint = InvestVault { investor: addr(3), vault: treasury(), mint: addr(8) };
    assert_eq!(invest_vault(&mut l, &no_mint, 5), Err(LedgerError::UninitializedMint));
    let no_investor = InvestVault { investor: addr(8), vault: treasury(), mint };
    assert_eq!(invest_vault(&mut l, &no_investor, 5), Err(LedgerError::AccountNotFound));
    assert_eq!(invest_vault(&mut l, &ctx, 5), Err(LedgerError::InsufficientFunds));
    assert_eq!(l.lamports(&addr(3)), Some(1_000));
    assert_eq!(l.supply(&mint), Some(0));
}

#[test]
fn invest_refuses_mint_of_other_authority() {
    let mut l = ledger();
    let tp = token_program();
    l.open_account(&addr(1), 1_000).unwrap();
    l.create_account(&addr(1), &addr(2), 10, MINT_SIZE, &tp).unwrap();
    l.initialize_mint(&addr(2), 6, &addr(1), None).unwrap();
    let ctx = InvestVault { investor: addr(1), vault: treasury(), mint: addr(2) };
    assert_eq!(invest_vault(&mut l, &ctx, 5), Err(LedgerError::AuthorityMismatch));
    assert_eq!(l.lamports(&addr(1)), Some(990));
}

#[test]
fn invest_refuses_overflowing_supply() {
    let (mut l, mint) = vault_ledger();
    l.open_account(&addr(3), u64::MAX - 1).unwrap();
    l.open_account(&addr(4), 2 * TOKEN_ACCOUNT_RENT + 10).unwrap();
    let ctx = InvestVault { investor: addr(3), vault: treasury(), mint };
    invest_vault(&mut l, &ctx, u64::MAX - 5 - TOKEN_ACCOUNT_RENT).unwrap();
    let more = InvestVault { investor: addr(4), vault: treasury(), mint };
    assert_eq!(invest_vault(&mut l, &more, TOKEN_ACCOUNT_RENT + 6), Err(LedgerError::Overflow));
    assert_eq!(l.lamports(&addr(4)), Some(2 * TOKEN_ACCOUNT_RENT + 10));
    assert_eq!(l.supply(&mint), Some(u64::MAX - 5 - TOKEN_ACCOUNT_RENT));
}

#[test]
fn investor_cannot_be_the_receiving_account() {
    let (mut l, mint) = vault_ledger();
    l.open_account(&addr(3), 5_000_000).unwrap();
    let own = InvestVault { investor: addr(3), vault: addr(3), mint };
    assert_eq!(invest_vault(&mut l, &own, 1_000), Err(LedgerError::InvalidVault));
    let other = InvestVault { investor: addr(3), vault: addr(2), mint };
    assert_eq!(invest_vault(&mut l, &other, 1_000), Err(LedgerError::InvalidVault));
    l.transfer_value(&addr(3), &treasury(), 4_000_000).unwrap();
    let treasurer = InvestVault { investor: treasury(), vault: treasury(), mint };
    assert_eq!(invest_vault(&mut l, &treasurer, 1_000), Err(LedgerError::InvalidVault));
    assert_eq!(l.supply(&mint), Some(0));
    assert_eq!(l.lamports(&treasury()), Some(4_000_000));
    assert_eq!(l.token_accounts.len(), 1);
}

#[test]
fn create_vault_needs_rent_for_the_token_account() {
    let mut l = ledger();
    l.open_account(&addr(1), VAULT_RENT).unwrap();
    let ctx = CreateVault { mint_token: addr(2), signer: addr(1) };
    assert_eq!(create_vault(&mut l, &ctx), Err(LedgerError::InsufficientFunds));
    assert_eq!(l.lamports(&addr(1)), Some(VAULT_RENT));
    assert_eq!(l.lamports(&addr(2)), None);
    assert!(l.mints.is_empty());
    assert!(l.token_accounts.is_empty());
    let mut l2 = ledger();
    l2.open_account(&addr(1), VAULT_RENT + TOKEN_ACCOUNT_RENT).unwrap();
    assert!(create_vault(&mut l2, &ctx).is_ok());
    assert_eq!(l2.lamports(&addr(1)), Some(0));
}

#[test]
fn provisioning_charges_the_payer() {
    let mut l = ledger();
    let tp = token_program();
    l.open_account(&addr(1), 1000).unwrap();
    l.open_account(&addr(5), TOKEN_ACCOUNT_RENT - 1).unwrap();
    l.create_account(&addr(1), &addr(2), 10, MINT_SIZE, &tp).unwrap();
    l.initialize_mint(&addr(2), 6, &addr(1), None).unwrap();
    assert_eq!(
        l.provision_token_account(&addr(5), &addr(5), &addr(2), true),
        Err(LedgerError::InsufficientFunds)
    );
    assert_eq!(
        l.provision_token_account(&addr(8), &addr(5), &addr(2), true),
        Err(LedgerError::AccountNotFound)
    );
    assert!(l.token_accounts.is_empty());
    l.transfer_value(&addr(1), &addr(5), 1).unwrap();
    let ata = l.provision_token_account(&addr(5), &addr(5), &addr(2), true).unwrap();
    assert_eq!(l.lamports(&addr(5)), Some(0));
    assert_eq!(l.lamports(&ata), Some(TOKEN_ACCOUNT_RENT));
}
