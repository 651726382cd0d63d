use simplets::{balance_sum, hash, Ledger, Outcome};

fn pool(minimal_amount: u64) -> Ledger {
    let mut l = Ledger::new(minimal_amount);
    assert_eq!(l.insert_user(1, "ann", hash("a"), "t0".to_string()), Ok(()));
    assert_eq!(l.insert_user(2, "bob", hash("b"), "t0".to_string()), Ok(()));
    assert_eq!(l.insert_user(3, "cid", hash("c"), "t0".to_string()), Ok(()));
    l
}

fn state(l: &Ledger, id: i64) -> (i64, u64, u64) {
    let u = l.get_user(id).unwrap();
    (u.credit, u.payments_in, u.payments_out)
}

#[test]
fn new_accounts_start_at_zero() {
    let l = pool(0);
    let u = l.get_user(2).unwrap();
    assert_eq!(u.name, "bob");
    assert_eq!((u.credit, u.payments_in, u.payments_out, u.permission), (0, 0, 0, 1));
    assert_eq!(u.password, hash("b"));
    assert_eq!(u.created, "t0");
    assert_eq!(l.get_users().len(), 3);
}

#[test]
fn duplicate_account_refused() {
    let mut l = pool(0);
    assert_eq!(l.insert_user(2, "dan", hash("d"), "t1".to_string()), Err(Outcome::DuplicateAccount(2)));
    assert_eq!(l.get_users().len(), 3);
    assert_eq!(l.get_user(2).unwrap().name, "bob");
}

#[test]
fn committed_payment_moves_amount_and_counts() {
    let mut l = pool(0);
    assert_eq!(l.add_payment_at(1, 2, 0, "seed", "t1".to_string()), Ok(()));
    assert_eq!(state(&l, 1), (0, 0, 1));
    assert_eq!(state(&l, 2), (0, 1, 0));
    assert_eq!(l.get_user(2).unwrap().send_limit(), 414);
    assert_eq!(l.add_payment_at(2, 1, 100, "bread", "t2".to_string()), Ok(()));
    assert_eq!(state(&l, 2), (-100, 1, 1));
    assert_eq!(state(&l, 1), (100, 1, 1));
    assert_eq!(state(&l, 3), (0, 0, 0));
    let p = &l.get_payments()[1];
    assert_eq!((p.id, p.payer, p.payee, p.amount), (2, 2, 1, 100));
    assert_eq!(p.message, "bread");
    assert_eq!(p.created, "t2");
}

#[test]
fn balances_sum_to_zero_after_payments() {
    let mut l = pool(0);
    assert_eq!(l.add_payment_at(1, 2, 0, "", "t1".to_string()), Ok(()));
    assert_eq!(l.add_payment_at(3, 1, 0, "", "t2".to_string()), Ok(()));
    assert_eq!(l.add_payment_at(2, 3, 300, "", "t3".to_string()), Ok(()));
    assert_eq!(l.add_payment_at(1, 3, 250, "", "t4".to_string()), Ok(()));
    assert_eq!(l.add_payment_at(1, 2, 1000, "", "t5".to_string()), Err(Outcome::PaymentSendLimit(414 - 250)));
    assert_eq!(balance_sum(l.get_users()), 0);
    assert_eq!(state(&l, 2).0 + state(&l, 1).0 + state(&l, 3).0, 0);
}

#[test]
fn below_minimum_leaves_balances() {
    let mut l = pool(10);
    assert_eq!(l.minimal_amount(), 10);
    assert_eq!(l.add_payment_at(1, 2, 5, "hi", "t1".to_string()), Err(Outcome::PaymentLessMin(10)));
    assert_eq!(state(&l, 1), (0, 0, 0));
    assert_eq!(state(&l, 2), (0, 0, 0));
    assert_eq!(l.get_payments().len(), 0);
}

#[test]
fn self_payment_leaves_balances() {
    let mut l = pool(0);
    assert_eq!(l.add_payment_at(1, 1, 0, "me", "t1".to_string()), Err(Outcome::PaymentSidesEq));
    assert_eq!(l.add_payment_at(1, 1, 7, "me", "t1".to_string()), Err(Outcome::PaymentSidesEq));
    assert_eq!(state(&l, 1), (0, 0, 0));
    assert_eq!(l.get_payments().len(), 0);
}

#[test]
fn failed_validation_leaves_both_accounts() {
    let mut l = pool(0);
    assert_eq!(l.add_payment_at(1, 2, 1, "", "t1".to_string()), Err(Outcome::PaymentSendLimit(0)));
    assert_eq!(state(&l, 1), (0, 0, 0));
    assert_eq!(state(&l, 2), (0, 0, 0));
    assert_eq!(l.get_payments().len(), 0);
}

#[test]
fn missing_account_refused() {
    let mut l = pool(0);
    assert_eq!(l.add_payment_at(9, 2, 0, "", "t1".to_string()), Err(Outcome::AccountNotFound(9)));
    assert_eq!(l.add_payment_at(1, 8, 0, "", "t1".to_string()), Err(Outcome::AccountNotFound(8)));
    assert!(l.get_user(9).is_none());
    assert_eq!(l.get_payments().len(), 0);
}

#[test]
fn payments_by_user_newest_first() {
    let mut l = pool(0);
    assert_eq!(l.add_payment_at(1, 2, 0, "first", "t1".to_string()), Ok(()));
    assert_eq!(l.add_payment_at(2, 3, 0, "second", "t2".to_string()), Ok(()));
    assert_eq!(l.add_payment_at(3, 1, 0, "third", "t3".to_string()), Ok(()));
    let ids: Vec<u64> = l.get_payments_by_user(1).iter().map(|p| p.id).collect();
    assert_eq!(ids, vec![3, 1]);
    let ids: Vec<u64> = l.get_payments_by_user(2).iter().map(|p| p.id).collect();
    assert_eq!(ids, vec![2, 1]);
    assert!(l.get_payments_by_user(4).is_empty());
}

#[test]
fn user_found_by_name() {
    let mut l = pool(0);
    assert_eq!(l.insert_user(4, "bob", hash("x"), "t1".to_string()), Ok(()));
    assert_eq!(l.get_user_by_name("bob").unwrap().id, 2);
    assert_eq!(l.get_user_by_name("cid").unwrap().id, 3);
    assert!(l.get_user_by_name("zed").is_none());
}

#[test]
fn password_replaced() {
    let mut l = pool(0);
    assert_eq!(l.set_password(2, "new"), Ok(()));
    assert!(l.get_user(2).unwrap().check_password("new"));
    assert!(!l.get_user(2).unwrap().check_password("b"));
    assert_eq!(l.get_user(2).unwrap().name, "bob");
    assert_eq!(l.set_password(5, "new"), Err(Outcome::AccountNotFound(5)));
}

#[test]
fn add_user_opens_account_with_digest() {
    let mut l = Ledger::new(0);
    let id = l.add_user("eva", "pw").unwrap();
    let u = l.get_user(id).unwrap();
    assert_eq!(u.name, "eva");
    assert_eq!(u.password, hash("pw"));
    assert_eq!(u.credit, 0);
    assert_eq!(l.add_payment(id, id, 0, "x"), Err(Outcome::PaymentSidesEq));
}
