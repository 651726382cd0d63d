use vstd::prelude::*;

use crate::isqrt::{floor_sqrt, isqrt, lemma_floor_sqrt_bounds};

verus! {

/// Scale of the receive ceiling: an account may hold up to
/// `floor(sqrt(payments_out + 1) * RECEIVE_SCALE)`.
pub const RECEIVE_SCALE: u128 = 2500;

/// Scale of the credit line: an account may draw down to
/// `-(floor(sqrt(payments_in + 1) * CREDIT_SCALE) - CREDIT_SCALE)`.
pub const CREDIT_SCALE: u128 = 1000;

/// Upper bound of `receive_ceiling` over every `u64` count: `2^32 * RECEIVE_SCALE`.
pub const MAX_RECEIVE_CEILING: i64 = 10737418240000;

/// Upper bound of `credit_line` over every `u64` count: `2^32 * CREDIT_SCALE`.
pub const MAX_CREDIT_LINE: i64 = 4294967296000;

/// A member account of the pool.
pub struct User {
    pub id: i64,
    pub name: String,
    /// Net position; negative when the account has drawn credit.
    pub credit: i64,
    /// Number of payments received.
    pub payments_in: u64,
    /// Number of payments sent.
    pub payments_out: u64,
    /// Digest of the account's password.
    pub password: String,
    pub created: String,
    pub permission: i64,
}

impl Clone for User {
    fn clone(&self) -> (r: Self)
        ensures
            r == *self,
    {
        User {
            id: self.id,
            name: self.name.clone(),
            credit: self.credit,
            payments_in: self.payments_in,
            payments_out: self.payments_out,
            password: self.password.clone(),
            created: self.created.clone(),
            permission: self.permission,
        }
    }
}

/// A recorded payment from `payer` to `payee`.
pub struct Payment {
    pub id: u64,
    pub payer: u64,
    pub payee: u64,
    pub amount: u64,
    pub created: String,
    pub message: String,
}

impl Clone for Payment {
    fn clone(&self) -> (r: Self)
        ensures
            r == *self,
    {
        Payment {
            id: self.id,
            payer: self.payer,
            payee: self.payee,
            amount: self.amount,
            created: self.created.clone(),
            message: self.message.clone(),
        }
    }
}

/// Why a payment was refused, or which limit binds it.
#[derive(Debug, PartialEq, Eq)]
pub enum Outcome {
    /// The storage layer failed; its message.
    Db(String),
    /// No account has this id.
    AccountNotFound(i64),
    /// An account with this id exists already.
    DuplicateAccount(i64),
    /// The amount is below the pool's minimum, which is carried.
    PaymentLessMin(u64),
    /// Payer and payee are the same account.
    PaymentSidesEq,
    /// The payee's receive limit binds; its value.
    PaymentReceiveLimit(i64),
    /// The payer's send limit binds; its value.
    PaymentSendLimit(i64),
    /// An internal inconsistency; nothing was changed.
    MustNotHappen,
}

/// How much an account that has sent `payments_out` payments may hold:
/// `floor(sqrt(payments_out + 1) * RECEIVE_SCALE)`.
pub open spec fn receive_ceiling(payments_out: nat) -> int {
    floor_sqrt(((payments_out + 1) * (RECEIVE_SCALE * RECEIVE_SCALE)) as nat) as int
}

/// How far below zero an account that has received `payments_in` payments may go:
/// `floor(sqrt(payments_in + 1) * CREDIT_SCALE) - CREDIT_SCALE`.
pub open spec fn credit_line(payments_in: nat) -> int {
    floor_sqrt(((payments_in + 1) * (CREDIT_SCALE * CREDIT_SCALE)) as nat) - CREDIT_SCALE
}

pub open spec fn fits_i64(x: int) -> bool {
    i64::MIN <= x <= i64::MAX
}

impl User {
    pub open spec fn receive_limit_spec(&self) -> int {
        receive_ceiling(self.payments_out as nat) - self.credit
    }

    pub open spec fn credit_limit_spec(&self) -> int {
        credit_line(self.payments_in as nat)
    }

    pub open spec fn send_limit_spec(&self) -> int {
        self.credit_limit_spec() + self.credit
    }
}

proof fn lemma_floor_sqrt_le(n: nat, b: nat)
    requires
        n <= b * b,
    ensures
        floor_sqrt(n) <= b,
{
    lemma_floor_sqrt_bounds(n);
    let r = floor_sqrt(n);
    assert(r <= b) by (nonlinear_arith)
        requires
            r * r <= n,
            n <= b * b,
    ;
}

proof fn lemma_floor_sqrt_ge(n: nat, b: nat)
    requires
        b * b <= n,
    ensures
        b <= floor_sqrt(n),
{
    lemma_floor_sqrt_bounds(n);
    let r = floor_sqrt(n);
    assert(b <= r) by (nonlinear_arith)
        requires
            b * b <= n,
            n < (r + 1) * (r + 1),
    ;
}

/// The receive ceiling lies in `0..=MAX_RECEIVE_CEILING` and the credit line in
/// `0..=MAX_CREDIT_LINE`, for every count that a `u64` holds.
pub proof fn lemma_limit_bounds(payments_out: u64, payments_in: u64)
    ensures
        0 <= receive_ceiling(payments_out as nat) <= MAX_RECEIVE_CEILING,
        0 <= credit_line(payments_in as nat) <= MAX_CREDIT_LINE,
{
    let o = ((payments_out as nat + 1) * (RECEIVE_SCALE * RECEIVE_SCALE)) as nat;
    let i = ((payments_in as nat + 1) * (CREDIT_SCALE * CREDIT_SCALE)) as nat;
    let bo: nat = 0x1_0000_0000 * 2500;
    let bi: nat = 0x1_0000_0000 * 1000;
    assert(o <= bo * bo) by (nonlinear_arith)
        requires
            o == (payments_out as nat + 1) * (2500 * 2500),
            payments_out < 0x1_0000_0000_0000_0000,
            bo == 0x1_0000_0000 * 2500,
    ;
    assert(i <= bi * bi) by (nonlinear_arith)
        requires
            i == (payments_in as nat + 1) * (1000 * 1000),
            payments_in < 0x1_0000_0000_0000_0000,
            bi == 0x1_0000_0000 * 1000,
    ;
    assert(1000 * 1000 <= i) by (nonlinear_arith)
        requires
            i == (payments_in as nat + 1) * (1000 * 1000),
    ;
    lemma_floor_sqrt_le(o, bo);
    lemma_floor_sqrt_le(i, bi);
    lemma_floor_sqrt_ge(i, 1000);
}

impl User {
    /// How much this account may still receive: its receive ceiling less its
    /// balance. Negative when the balance is already above the ceiling.
    pub fn receive_limit(&self) -> (r: i64)
        requires
            fits_i64(self.receive_limit_spec()),
        ensures
            r == self.receive_limit_spec(),
    {
        proof {
            lemma_limit_bounds(self.payments_out, self.payments_in);
        }
        let sent = self.payments_out as u128 + 1;
        assert(sent * (RECEIVE_SCALE * RECEIVE_SCALE) <= u128::MAX) by (nonlinear_arith)
            requires
                sent <= 0x1_0000_0000_0000_0000,
        ;
        let ceiling = isqrt(sent * (RECEIVE_SCALE * RECEIVE_SCALE));
        (ceiling as i128 - self.credit as i128) as i64
    }

    /// How far below zero this account may go.
    pub fn credit_limit(&self) -> (r: i64)
        ensures
            r == self.credit_limit_spec(),
            0 <= r <= MAX_CREDIT_LINE,
    {
        proof {
            lemma_limit_bounds(self.payments_out, self.payments_in);
        }
        let received = self.payments_in as u128 + 1;
        assert(received * (CREDIT_SCALE * CREDIT_SCALE) <= u128::MAX) by (nonlinear_arith)
            requires
                received <= 0x1_0000_0000_0000_0000,
        ;
        let line = isqrt(received * (CREDIT_SCALE * CREDIT_SCALE));
        (line as i128 - CREDIT_SCALE as i128) as i64
    }

    /// How much this account may send now: its credit line plus its balance.
    pub fn send_limit(&self) -> (r: i64)
        requires
            fits_i64(self.send_limit_spec()),
        ensures
            r == self.send_limit_spec(),
    {
        (self.credit_limit() as i128 + self.credit as i128) as i64
    }
}

/// The limits read nothing but the balance and the two counters: accounts
/// that agree on those, as an account does with itself between two calls,
/// have the same limits.
pub proof fn lemma_limits_deterministic(a: User, b: User)
    requires
        a.credit == b.credit,
        a.payments_in == b.payments_in,
        a.payments_out == b.payments_out,
    ensures
        a.receive_limit_spec() == b.receive_limit_spec(),
        a.credit_limit_spec() == b.credit_limit_spec(),
        a.send_limit_spec() == b.send_limit_spec(),
{
}

/// The limit that binds a payment from `payer` to `payee`: the payer's send
/// limit when it does not exceed the payee's receive limit, else the latter.
pub open spec fn binding_limit(payer: User, payee: User) -> Outcome {
    if payer.send_limit_spec() <= payee.receive_limit_spec() {
        Outcome::PaymentSendLimit(payer.send_limit_spec() as i64)
    } else {
        Outcome::PaymentReceiveLimit(payee.receive_limit_spec() as i64)
    }
}

/// What validating a payment of `amount` from `payer` to `payee` gives, the
/// first failing check winning: the minimum, then distinct sides, then the
/// binding limit.
pub open spec fn payment_verdict(payer: User, payee: User, amount: nat, minimal_amount: u64) -> Result<
    (),
    Outcome,
> {
    if amount < minimal_amount {
        Err(Outcome::PaymentLessMin(minimal_amount))
    } else if payer.id == payee.id {
        Err(Outcome::PaymentSidesEq)
    } else if payer.send_limit_spec() <= payee.receive_limit_spec() {
        if amount > payer.send_limit_spec() {
            Err(Outcome::PaymentSendLimit(payer.send_limit_spec() as i64))
        } else {
            Ok(())
        }
    } else {
        if amount > payee.receive_limit_spec() {
            Err(Outcome::PaymentReceiveLimit(payee.receive_limit_spec() as i64))
        } else {
            Ok(())
        }
    }
}

/// Both limits that validating a payment from `payer` to `payee` reads are
/// representable.
pub open spec fn limits_fit(payer: User, payee: User) -> bool {
    fits_i64(payer.send_limit_spec()) && fits_i64(payee.receive_limit_spec())
}

impl User {
    /// The limits read nothing but the balance and the two counters: accounts
/// that agree on those, as an account does with itself between two calls,
/// have the same limits.
pub proof fn lemma_limits_deterministic(a: User, b: User)
    requires
        a.credit == b.credit,
        a.payments_in == b.payments_in,
        a.payments_out == b.payments_out,
    ensures
        a.receive_limit_spec() == b.receive_limit_spec(),
        a.credit_limit_spec() == b.credit_limit_spec(),
        a.send_limit_spec() == b.send_limit_spec(),
{
}

/// The limit that binds a payment from this account to `payee`.
    pub fn payment_limit(&self, payee: &User) -> (r: Outcome)
        requires
            limits_fit(*self, *payee),
        ensures
            r == binding_limit(*self, *payee),
    {
        let send_limit = self.send_limit();
        let receive_limit = payee.receive_limit();
        if send_limit <= receive_limit {
            Outcome::PaymentSendLimit(send_limit)
        } else {
            Outcome::PaymentReceiveLimit(receive_limit)
        }
    }
}

/// Validates a payment of `amount` from `payer` to `payee` in a pool whose
/// smallest payment is `minimal_amount`.
pub fn check_payment(payer: &User, payee: &User, amount: u64, minimal_amount: u64) -> (r: Result<
    (),
    Outcome,
>)
    requires
        limits_fit(*payer, *payee),
    ensures
        r == payment_verdict(*payer, *payee, amount as nat, minimal_amount),
{
    if amount < minimal_amount {
        return Err(Outcome::PaymentLessMin(minimal_amount));
    }
    if payer.id == payee.id {
        return Err(Outcome::PaymentSidesEq);
    }
    let limit = payer.payment_limit(payee);
    match limit {
        Outcome::PaymentSendLimit(l) => {
            if amount as i128 > l as i128 {
                return Err(limit);
            }
        },
        Outcome::PaymentReceiveLimit(l) => {
            if amount as i128 > l as i128 {
                return Err(limit);
            }
        },
        _ => {
            return Err(Outcome::MustNotHappen);
        },
    }
    Ok(())
}

} // verus!
