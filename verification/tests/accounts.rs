use ledger_core::accounts::{Accounts, TransactionHistory};
use ledger_core::smart_contract::SmartContract;

#[test]
fn balances_are_kept_by_address() {
    let mut accounts = Accounts::new();
    assert_eq!(accounts.get("alice"), None);
    assert!(!accounts.contains_key("alice"));
    assert_eq!(accounts.insert("alice".to_string(), 10), None);
    assert_eq!(accounts.insert("bob".to_string(), 20), None);
    assert_eq!(accounts.get("alice"), Some(10));
    assert_eq!(accounts.get("bob"), Some(20));
    assert_eq!(accounts.insert("alice".to_string(), 30), Some(10));
    assert_eq!(accounts.get("alice"), Some(30));
    assert_eq!(accounts.get("bob"), Some(20));
    assert!(accounts.contains_key("bob"));
    assert_eq!(accounts.get("ali"), None);
    assert_eq!(accounts.get(""), None);
    let copy = accounts.clone();
    accounts.insert("bob".to_string(), 0);
    assert_eq!(copy.get("bob"), Some(20));
    assert_eq!(copy.get("alice"), Some(30));
    assert_eq!(accounts.get("bob"), Some(0));
}

#[test]
fn a_hash_is_admitted_once() {
    let mut history = TransactionHistory::new();
    assert!(!history.contains("abc"));
    assert!(history.insert("abc".to_string()));
    assert!(history.contains("abc"));
    assert!(!history.insert("abc".to_string()));
    assert!(history.insert("abd".to_string()));
    assert!(history.contains("abc"));
    assert!(history.contains("abd"));
    assert!(!history.contains("ab"));
}

#[test]
fn a_contract_tracks_its_balance() {
    let mut contract = SmartContract::new("owner".to_string());
    assert_eq!(contract.owner, "owner");
    assert_eq!(contract.get_balance(), 0);
    contract.deposit(40);
    contract.deposit(2);
    assert_eq!(contract.get_balance(), 42);
    assert_eq!(contract.balance, 42);
    contract.deposit(u64::MAX - 42);
    assert_eq!(contract.get_balance(), u64::MAX);
}
