use std::str::FromStr;

use anchor_lang::prelude::Pubkey;
use mint_authority::address::Address;
use mint_authority::authority::{authorization, derive_authority, Authority};
use mint_authority::error::MintError;
use mint_authority::ledger::{Ledger, SupplyCounter};
use mint_authority::program::{initiate_token, mint_tokens, InitTokenParams, InitiateToken, MintTokens};

const PROGRAM_ID: &str = "DaAEZvCbrdJ7WADHrmtPSY2rmW6R4c5iZ43PsfxVabYy";

fn program() -> Address {
    Address::new(Pubkey::from_str(PROGRAM_ID).unwrap().to_bytes())
}

fn authority() -> Authority {
    derive_authority(&program()).expect("a bump exists")
}

fn params() -> InitTokenParams {
    InitTokenParams {
        name: "Coin".to_string(),
        symbol: "CNN".to_string(),
        uri: "https://x/m.json".to_string(),
        decimals: 6,
    }
}

fn init_accounts(mint: Address) -> InitiateToken {
    InitiateToken { metadata: Address::new([7u8; 32]), mint, payer: Address::new([1u8; 32]) }
}

fn mint_accounts(mint: Address, holder: [u8; 32]) -> MintTokens {
    MintTokens { mint, destination: Address::new(holder), payer: Address::new([1u8; 32]) }
}

fn bootstrapped_ledger() -> (Ledger, Authority) {
    let auth = authority();
    let mut ledger = Ledger::new();
    let r = initiate_token(&mut ledger, &program(), &init_accounts(auth.address), params());
    assert_eq!(r, Ok(()));
    (ledger, auth)
}

fn balance_of(ledger: &Ledger, holder: [u8; 32], mint: &Address) -> Option<u64> {
    ledger
        .balances
        .iter()
        .find(|b| b.holder.bytes == holder && b.mint.bytes == mint.bytes)
        .map(|b| b.amount)
}

#[test]
fn derivation_matches_find_program_address() {
    let pid = Pubkey::from_str(PROGRAM_ID).unwrap();
    let (expected, bump) = Pubkey::find_program_address(&[b"mint"], &pid);
    let auth = authority();
    assert_eq!(auth.address.bytes, expected.to_bytes());
    assert_eq!(auth.bump, bump);
    assert_ne!(auth.address.bytes, pid.to_bytes());
}

#[test]
fn derivation_is_repeatable() {
    let a = authority();
    let b = authority();
    assert_eq!(a.address.bytes, b.address.bytes);
    assert_eq!(a.bump, b.bump);
}

#[test]
fn derivation_depends_on_program() {
    let other = derive_authority(&Address::new([3u8; 32])).unwrap();
    assert_ne!(other.address.bytes, authority().address.bytes);
}

#[test]
fn authorization_signs_for_derived_address_only() {
    let auth = authority();
    let token = authorization(&program(), auth.bump);
    assert_eq!(token.seeds, vec![b"mint".to_vec(), vec![auth.bump]]);
    assert!(token.signs_for(&auth.address));
    assert!(!token.signs_for(&Address::new([9u8; 32])));
    let wrong_bump = authorization(&program(), auth.bump.wrapping_sub(1));
    assert!(!wrong_bump.signs_for(&auth.address));
    let wrong_program = authorization(&Address::new([3u8; 32]), auth.bump);
    assert!(!wrong_program.signs_for(&auth.address));
}

#[test]
fn address_comparison() {
    let a = Address::new([5u8; 32]);
    let mut bytes = [5u8; 32];
    assert!(a.same(&Address::new(bytes)));
    bytes[31] = 6;
    assert!(!a.same(&Address::new(bytes)));
}

#[test]
fn bootstrap_then_issue_scenario() {
    let (mut ledger, auth) = bootstrapped_ledger();
    assert_eq!(ledger.counters.len(), 1);
    assert_eq!(ledger.counters[0].address.bytes, auth.address.bytes);
    assert_eq!(ledger.counters[0].authority.bytes, auth.address.bytes);
    assert_eq!(ledger.counters[0].decimals, 6);
    assert_eq!(ledger.counters[0].supply, 0);
    assert_eq!(ledger.metadata.len(), 1);
    assert_eq!(ledger.metadata[0].update_authority.bytes, auth.address.bytes);
    assert_eq!(ledger.metadata[0].mint.bytes, auth.address.bytes);
    assert_eq!(ledger.metadata[0].name, "Coin");
    assert_eq!(ledger.metadata[0].symbol, "CNN");
    assert_eq!(ledger.metadata[0].uri, "https://x/m.json");

    let holder = [42u8; 32];
    let r = mint_tokens(&mut ledger, &program(), &mint_accounts(auth.address, holder), 1000);
    assert_eq!(r, Ok(()));
    assert_eq!(balance_of(&ledger, holder, &auth.address), Some(1000));
    assert_eq!(ledger.counters[0].supply, 1000);

    let r = mint_tokens(&mut ledger, &program(), &mint_accounts(auth.address, holder), 500);
    assert_eq!(r, Ok(()));
    assert_eq!(balance_of(&ledger, holder, &auth.address), Some(1500));
    assert_eq!(ledger.counters[0].supply, 1500);
    assert_eq!(ledger.balances.len(), 1);
}

#[test]
fn bootstrap_twice_fails_and_changes_nothing() {
    let (mut ledger, auth) = bootstrapped_ledger();
    let r = initiate_token(&mut ledger, &program(), &init_accounts(auth.address), params());
    assert_eq!(r, Err(MintError::AlreadyInitialized));
    assert_eq!(ledger.counters.len(), 1);
    assert_eq!(ledger.metadata.len(), 1);
}

#[test]
fn bootstrap_with_foreign_mint_is_rejected() {
    let mut ledger = Ledger::new();
    let r = initiate_token(&mut ledger, &program(), &init_accounts(Address::new([8u8; 32])), params());
    assert_eq!(r, Err(MintError::AuthorityMismatch));
    assert!(ledger.counters.is_empty());
    assert!(ledger.metadata.is_empty());
}

#[test]
fn bootstrap_onto_used_metadata_address_changes_nothing() {
    let (ledger, _) = bootstrapped_ledger();
    let mut other = Ledger::new();
    other.metadata.push(ledger.metadata[0].clone());
    let auth = authority();
    let r = initiate_token(&mut other, &program(), &init_accounts(auth.address), params());
    assert_eq!(r, Err(MintError::ExternalProgramFailure));
    assert!(other.counters.is_empty());
    assert_eq!(other.metadata.len(), 1);
}

#[test]
fn issue_to_foreign_counter_is_rejected() {
    let (mut ledger, auth) = bootstrapped_ledger();
    let holder = [42u8; 32];
    mint_tokens(&mut ledger, &program(), &mint_accounts(auth.address, holder), 10).unwrap();
    let forged = Address::new([8u8; 32]);
    ledger.counters.push(SupplyCounter { address: forged, authority: forged, decimals: 0, supply: 0 });
    let r = mint_tokens(&mut ledger, &program(), &mint_accounts(forged, holder), 5);
    assert_eq!(r, Err(MintError::AuthorityMismatch));
    assert_eq!(balance_of(&ledger, holder, &auth.address), Some(10));
    assert_eq!(balance_of(&ledger, holder, &forged), None);
    assert_eq!(ledger.balances.len(), 1);
}

#[test]
fn issue_to_counter_recording_other_authority_is_rejected() {
    let auth = authority();
    let mut ledger = Ledger::new();
    let attacker = Address::new([66u8; 32]);
    ledger.counters.push(SupplyCounter { address: auth.address, authority: attacker, decimals: 6, supply: 0 });
    let r = mint_tokens(&mut ledger, &program(), &mint_accounts(auth.address, [42u8; 32]), 5);
    assert_eq!(r, Err(MintError::AuthorityMismatch));
    assert!(ledger.balances.is_empty());
    assert_eq!(ledger.counters[0].supply, 0);
}

#[test]
fn issue_before_bootstrap_fails() {
    let auth = authority();
    let mut ledger = Ledger::new();
    let r = mint_tokens(&mut ledger, &program(), &mint_accounts(auth.address, [42u8; 32]), 5);
    assert_eq!(r, Err(MintError::ExternalProgramFailure));
    assert!(ledger.balances.is_empty());
}

#[test]
fn issues_add_up() {
    let (mut ledger, auth) = bootstrapped_ledger();
    let holder = [42u8; 32];
    mint_tokens(&mut ledger, &program(), &mint_accounts(auth.address, holder), 7).unwrap();
    mint_tokens(&mut ledger, &program(), &mint_accounts(auth.address, holder), 35).unwrap();
    assert_eq!(balance_of(&ledger, holder, &auth.address), Some(42));
    assert_eq!(ledger.counters[0].supply, 42);
}

#[test]
fn issue_creates_missing_balance_account() {
    let (mut ledger, auth) = bootstrapped_ledger();
    let first = [42u8; 32];
    let second = [43u8; 32];
    mint_tokens(&mut ledger, &program(), &mint_accounts(auth.address, first), 100).unwrap();
    assert_eq!(balance_of(&ledger, second, &auth.address), None);
    mint_tokens(&mut ledger, &program(), &mint_accounts(auth.address, second), 25).unwrap();
    assert_eq!(ledger.balances.len(), 2);
    assert_eq!(ledger.balances[1].holder.bytes, second);
    assert_eq!(ledger.balances[1].mint.bytes, auth.address.bytes);
    assert_eq!(ledger.balances[1].amount, 25);
    assert_eq!(balance_of(&ledger, first, &auth.address), Some(100));
    assert_eq!(ledger.counters[0].supply, 125);
}

#[test]
fn issue_of_zero_creates_empty_account() {
    let (mut ledger, auth) = bootstrapped_ledger();
    let holder = [42u8; 32];
    assert_eq!(mint_tokens(&mut ledger, &program(), &mint_accounts(auth.address, holder), 0), Ok(()));
    assert_eq!(balance_of(&ledger, holder, &auth.address), Some(0));
    assert_eq!(ledger.counters[0].supply, 0);
}

#[test]
fn issue_past_largest_supply_fails_and_changes_nothing() {
    let (mut ledger, auth) = bootstrapped_ledger();
    let holder = [42u8; 32];
    mint_tokens(&mut ledger, &program(), &mint_accounts(auth.address, holder), u64::MAX).unwrap();
    let r = mint_tokens(&mut ledger, &program(), &mint_accounts(auth.address, [43u8; 32]), 1);
    assert_eq!(r, Err(MintError::ExternalProgramFailure));
    assert_eq!(ledger.balances.len(), 1);
    assert_eq!(ledger.counters[0].supply, u64::MAX);
}
