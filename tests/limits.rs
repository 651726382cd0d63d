use simplets::{check_payment, Outcome, User};

fn new_user(id: i64, credit: i64, payments_in: u64, payments_out: u64) -> User {
    User {
        id,
        name: "".to_string(),
        credit,
        payments_in,
        payments_out,
        password: "".to_string(),
        created: "".to_string(),
        permission: 0,
    }
}

#[test]
fn payment_limit1() {
    let payer = new_user(0, 10, 1, 0);
    assert_eq!(payer.send_limit(), 424);
    let u2 = new_user(1, 0, 0, 0);
    assert_eq!(payer.payment_limit(&u2), Outcome::PaymentSendLimit(424));
}

#[test]
fn payment_limit2() {
    let payer = new_user(0, 3000, 0, 0);
    let u2 = new_user(1, 0, 0, 0);
    assert_eq!(payer.payment_limit(&u2), Outcome::PaymentReceiveLimit(2500));
}

#[test]
fn payment_limit3() {
    let payer = new_user(0, 10000, 3, 3);
    let u2 = new_user(1, -100, 2, 2);
    assert_eq!(payer.payment_limit(&u2), Outcome::PaymentReceiveLimit(4430));
}

#[test]
fn held_credit_over_limit() {
    let user = new_user(0, 10000, 0, 0);
    assert_eq!(user.receive_limit(), -7500);
}

#[test]
fn credit_limit_grows_with_payments_received() {
    assert_eq!(new_user(0, 0, 0, 0).credit_limit(), 0);
    assert_eq!(new_user(0, 0, 1, 0).credit_limit(), 414);
    assert_eq!(new_user(0, 0, 3, 0).credit_limit(), 1000);
    assert_eq!(new_user(0, 0, 99, 0).credit_limit(), 9000);
}

#[test]
fn receive_limit_grows_with_payments_sent() {
    assert_eq!(new_user(0, 0, 0, 0).receive_limit(), 2500);
    assert_eq!(new_user(0, 0, 0, 1).receive_limit(), 3535);
    assert_eq!(new_user(0, 0, 0, 3).receive_limit(), 5000);
    assert_eq!(new_user(0, -100, 0, 2).receive_limit(), 4430);
}

#[test]
fn limits_at_largest_counters() {
    let u = new_user(0, 0, u64::MAX, u64::MAX);
    assert_eq!(u.credit_limit(), 4294967295000);
    assert_eq!(u.receive_limit(), 10737418240000);
}

#[test]
fn send_limit_can_be_negative() {
    let u = new_user(0, -500, 1, 0);
    assert_eq!(u.send_limit(), -86);
}

#[test]
fn limits_repeat_on_unchanged_account() {
    let u = new_user(7, 1234, 5, 8);
    assert_eq!(u.receive_limit(), u.receive_limit());
    assert_eq!(u.credit_limit(), u.credit_limit());
    assert_eq!(u.send_limit(), u.send_limit());
    let v = new_user(8, 1234, 5, 8);
    assert_eq!(u.receive_limit(), v.receive_limit());
}

#[test]
fn fresh_payer_hits_send_limit() {
    let a = new_user(1, 0, 0, 1);
    let b = new_user(2, 0, 0, 0);
    assert_eq!(a.send_limit(), 0);
    assert_eq!(b.receive_limit(), 2500);
    assert_eq!(check_payment(&a, &b, 1, 0), Err(Outcome::PaymentSendLimit(0)));
}

#[test]
fn amount_below_minimum_refused() {
    let a = new_user(1, 10000, 0, 0);
    let b = new_user(2, 0, 0, 0);
    assert_eq!(check_payment(&a, &b, 5, 10), Err(Outcome::PaymentLessMin(10)));
}

#[test]
fn payee_receive_limit_binds() {
    let a = new_user(1, 10000, 0, 3);
    let b = new_user(2, -100, 2, 0);
    assert_eq!(a.send_limit(), 10000);
    assert_eq!(b.receive_limit(), 2600);
    assert_eq!(check_payment(&a, &b, 2601, 0), Err(Outcome::PaymentReceiveLimit(2600)));
    assert_eq!(check_payment(&a, &b, 2600, 0), Ok(()));
}

#[test]
fn self_payment_refused() {
    let a = new_user(1, 10000, 0, 0);
    let same = new_user(1, 10000, 0, 0);
    assert_eq!(check_payment(&a, &same, 1, 0), Err(Outcome::PaymentSidesEq));
    assert_eq!(check_payment(&a, &same, 0, 10), Err(Outcome::PaymentLessMin(10)));
}

#[test]
fn send_limit_allows_exact_amount() {
    let a = new_user(1, 10, 1, 0);
    let b = new_user(2, 0, 0, 0);
    assert_eq!(check_payment(&a, &b, 424, 0), Ok(()));
    assert_eq!(check_payment(&a, &b, 425, 0), Err(Outcome::PaymentSendLimit(424)));
}

#[test]
fn amount_beyond_i64_refused() {
    let a = new_user(1, 10, 1, 0);
    let b = new_user(2, 0, 0, 0);
    assert_eq!(check_payment(&a, &b, u64::MAX, 0), Err(Outcome::PaymentSendLimit(424)));
}
