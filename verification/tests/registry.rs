use samsub_registry::AccountData;
use samsub_registry::ContractData;
use samsub_registry::ContractError;

fn owned_registry(owner: &str) -> ContractData {
    let mut c = ContractData::default();
    assert_eq!(c.new(owner.to_string()), Ok(()));
    c
}

#[test]
fn initialize_sets_owner() {
    let mut c = ContractData::default();
    assert_eq!(c.get_owner_id(), "");
    assert_eq!(c.new("alice".to_string()), Ok(()));
    assert_eq!(c.get_owner_id(), "alice");
}

#[test]
fn initialize_twice_fails_and_keeps_first_owner() {
    let mut c = owned_registry("alice");
    assert_eq!(c.new("mallory".to_string()), Err(ContractError::AlreadyInitialized));
    assert_eq!(c.get_owner_id(), "alice");
    // The state still behaves as after the first call: alice mutates, mallory does not.
    assert_eq!(c.add_account("alice".to_string(), "a.near".to_string(), "s-1".to_string(), true), Ok(()));
    assert_eq!(
        c.add_account("mallory".to_string(), "b.near".to_string(), "s-2".to_string(), true),
        Err(ContractError::Unauthorized)
    );
}

#[test]
fn owner_unchanged_by_later_calls() {
    let mut c = owned_registry("alice");
    c.add_account("alice".to_string(), "a.near".to_string(), "s-1".to_string(), true).unwrap();
    c.edit_user_data("alice".to_string(), "s-1".to_string(), false).unwrap();
    let _ = c.get_users_data(0, 10);
    assert_eq!(c.get_owner_id(), "alice");
}

#[test]
fn added_record_is_listed_with_its_fields() {
    let mut c = owned_registry("alice");
    assert_eq!(
        c.add_account("alice".to_string(), "bob.near".to_string(), "sub-1".to_string(), true),
        Ok(())
    );
    let records = c.get_users_data(0, 100);
    assert_eq!(records.len(), 1);
    assert_eq!(records[0].near_account_id, "bob.near");
    assert_eq!(records[0].samsub_id, "sub-1");
    assert!(records[0].is_valid);
}

#[test]
fn add_account_is_idempotent() {
    let mut c = owned_registry("alice");
    c.add_account("alice".to_string(), "bob.near".to_string(), "sub-1".to_string(), true).unwrap();
    let once = c.get_users_data(0, 100);
    c.add_account("alice".to_string(), "bob.near".to_string(), "sub-1".to_string(), true).unwrap();
    let twice = c.get_users_data(0, 100);
    assert_eq!(once, twice);
    assert_eq!(c.get_owner_id(), "alice");
}

#[test]
fn add_account_replaces_in_place() {
    let mut c = owned_registry("alice");
    c.add_account("alice".to_string(), "a.near".to_string(), "s-1".to_string(), true).unwrap();
    c.add_account("alice".to_string(), "b.near".to_string(), "s-2".to_string(), true).unwrap();
    c.add_account("alice".to_string(), "c.near".to_string(), "s-1".to_string(), false).unwrap();
    let records = c.get_users_data(0, 100);
    assert_eq!(records.len(), 2);
    assert_eq!(records[0].near_account_id, "c.near");
    assert_eq!(records[0].samsub_id, "s-1");
    assert!(!records[0].is_valid);
    assert_eq!(records[1].samsub_id, "s-2");
}

#[test]
fn non_owner_mutations_fail_and_change_nothing() {
    let mut c = owned_registry("alice");
    c.add_account("alice".to_string(), "a.near".to_string(), "s-1".to_string(), true).unwrap();
    let before = c.get_users_data(0, 100);
    assert_eq!(
        c.add_account("mallory".to_string(), "m.near".to_string(), "s-9".to_string(), true),
        Err(ContractError::Unauthorized)
    );
    assert_eq!(
        c.edit_user_data("mallory".to_string(), "s-1".to_string(), false),
        Err(ContractError::Unauthorized)
    );
    assert_eq!(c.get_users_data(0, 100), before);
}

#[test]
fn uninitialized_registry_refuses_mutations() {
    let mut c = ContractData::default();
    assert_eq!(
        c.add_account("alice".to_string(), "a.near".to_string(), "s-1".to_string(), true),
        Err(ContractError::Unauthorized)
    );
    assert_eq!(
        c.edit_user_data("alice".to_string(), "s-1".to_string(), true),
        Err(ContractError::Unauthorized)
    );
    assert_eq!(c.get_users_data(0, 100).len(), 0);
}

#[test]
fn edit_absent_key_returns_false_and_changes_nothing() {
    let mut c = owned_registry("alice");
    c.add_account("alice".to_string(), "a.near".to_string(), "s-1".to_string(), true).unwrap();
    let before = c.get_users_data(0, 100);
    assert_eq!(c.edit_user_data("alice".to_string(), "missing".to_string(), false), Ok(false));
    assert_eq!(c.get_users_data(0, 100), before);
}

#[test]
fn edit_present_key_changes_only_the_flag() {
    let mut c = owned_registry("alice");
    c.add_account("alice".to_string(), "a.near".to_string(), "s-1".to_string(), true).unwrap();
    c.add_account("alice".to_string(), "b.near".to_string(), "s-2".to_string(), true).unwrap();
    assert_eq!(c.edit_user_data("alice".to_string(), "s-1".to_string(), false), Ok(true));
    let records = c.get_users_data(0, 100);
    assert_eq!(records.len(), 2);
    assert_eq!(records[0].near_account_id, "a.near");
    assert_eq!(records[0].samsub_id, "s-1");
    assert!(!records[0].is_valid);
    assert_eq!(
        records[1],
        AccountData::new("b.near".to_string(), "s-2".to_string(), true)
    );
}

#[test]
fn pagination_clamps_to_the_store() {
    let mut c = owned_registry("alice");
    for k in 0..5u32 {
        c.add_account(
            "alice".to_string(),
            format!("acct-{}.near", k),
            format!("sub-{}", k),
            k % 2 == 0,
        )
        .unwrap();
    }
    let tail = c.get_users_data(3, 10);
    assert_eq!(tail.len(), 2);
    assert_eq!(tail[0].samsub_id, "sub-3");
    assert_eq!(tail[1].samsub_id, "sub-4");
    assert_eq!(c.get_users_data(10, 5).len(), 0);
    assert_eq!(c.get_users_data(0, 0).len(), 0);
    let window = c.get_users_data(1, 2);
    assert_eq!(window.len(), 2);
    assert_eq!(window[0].samsub_id, "sub-1");
    assert_eq!(window[1].samsub_id, "sub-2");
}

#[test]
fn pagination_clamps_near_the_numeric_limit() {
    let mut c = owned_registry("alice");
    c.add_account("alice".to_string(), "a.near".to_string(), "s-1".to_string(), true).unwrap();
    assert_eq!(c.get_users_data(u64::MAX, u64::MAX).len(), 0);
    assert_eq!(c.get_users_data(0, u64::MAX).len(), 1);
}

#[test]
fn owner_scenario_round_trip() {
    let mut c = ContractData::default();
    assert_eq!(c.new("alice".to_string()), Ok(()));
    assert_eq!(
        c.add_account("alice".to_string(), "bob.near".to_string(), "sub-1".to_string(), true),
        Ok(())
    );
    assert_eq!(c.edit_user_data("alice".to_string(), "sub-1".to_string(), false), Ok(true));
    let records = c.get_users_data(0, 10);
    assert_eq!(records.len(), 1);
    assert_eq!(records[0].near_account_id, "bob.near");
    assert_eq!(records[0].samsub_id, "sub-1");
    assert!(!records[0].is_valid);
}

#[test]
fn assert_owner_gates_exactly_the_owner() {
    let c = owned_registry("alice");
    assert_eq!(c.assert_owner(&"alice".to_string()), Ok(()));
    assert_eq!(c.assert_owner(&"mallory".to_string()), Err(ContractError::Unauthorized));
    let empty = ContractData::default();
    assert_eq!(empty.assert_owner(&"alice".to_string()), Err(ContractError::Unauthorized));
    assert_eq!(empty.assert_owner(&"".to_string()), Err(ContractError::Unauthorized));
}

#[test]
fn default_record_is_empty() {
    let r = AccountData::default();
    assert_eq!(r.near_account_id, "");
    assert_eq!(r.samsub_id, "");
    assert!(!r.is_valid);
}

#[test]
fn record_copies_compare_equal() {
    let r = AccountData::new("a.near".to_string(), "s-1".to_string(), true);
    let copy = AccountData::from(&r);
    assert_eq!(copy, r);
}
