use vstd::prelude::*;
use vstd::string::StringSliceAdditionalSpecFns;

use crate::digest::{hash, password_digest};
use crate::account::{
    check_payment, lemma_limit_bounds, limits_fit, payment_verdict, Outcome, Payment, User,
    MAX_CREDIT_LINE, MAX_RECEIVE_CEILING,
};

verus! {

/// Bound on the magnitude of every balance a ledger holds. Payments that pass
/// validation never take a balance past it, and within it every limit is
/// representable.
pub const BALANCE_BOUND: i64 = 0x4000_0000_0000_0000;

/// Sum of the balances of `users`.
pub open spec fn balance_total(users: Seq<User>) -> int
    decreases users.len(),
{
    if users.len() == 0 {
        0
    } else {
        balance_total(users.drop_last()) + users.last().credit
    }
}

pub open spec fn ids_unique(users: Seq<User>) -> bool {
    forall|i: int, j: int|
        0 <= i < users.len() && 0 <= j < users.len() && i != j ==> users[i].id != users[j].id
}

pub open spec fn balance_in_bound(u: User) -> bool {
    -BALANCE_BOUND <= u.credit <= BALANCE_BOUND
}

pub open spec fn balances_bounded(users: Seq<User>) -> bool {
    forall|i: int| 0 <= i < users.len() ==> balance_in_bound(#[trigger] users[i])
}

pub open spec fn has_account(users: Seq<User>, id: i64) -> bool {
    exists|k: int| 0 <= k < users.len() && users[k].id == id
}

/// Position of the account `id` in `users`, where it exists.
pub open spec fn account_index(users: Seq<User>, id: i64) -> int {
    choose|k: int| 0 <= k < users.len() && users[k].id == id
}

pub open spec fn account(users: Seq<User>, id: i64) -> User {
    users[account_index(users, id)]
}

/// `u` after sending `amount`.
pub open spec fn debited(u: User, amount: nat) -> User {
    User { credit: (u.credit - amount) as i64, payments_out: (u.payments_out + 1) as u64, ..u }
}

/// `u` after receiving `amount`.
pub open spec fn credited(u: User, amount: nat) -> User {
    User { credit: (u.credit + amount) as i64, payments_in: (u.payments_in + 1) as u64, ..u }
}

/// A counter of either side, or the payment numbering, has no room for one more.
pub open spec fn counters_full(payer: User, payee: User, n_payments: nat) -> bool {
    payer.payments_out == u64::MAX || payee.payments_in == u64::MAX || n_payments >= u64::MAX
}

/// What recording a payment of `amount` from `payer` to `payee` returns: the
/// first missing account, then the validation verdict, then a refusal when a
/// counter is saturated.
pub open spec fn payment_result(
    users: Seq<User>,
    n_payments: nat,
    payer: i64,
    payee: i64,
    amount: nat,
    minimal_amount: u64,
) -> Result<(), Outcome> {
    if !has_account(users, payer) {
        Err(Outcome::AccountNotFound(payer))
    } else if !has_account(users, payee) {
        Err(Outcome::AccountNotFound(payee))
    } else {
        let verdict = payment_verdict(
            account(users, payer),
            account(users, payee),
            amount,
            minimal_amount,
        );
        if verdict is Err {
            verdict
        } else if counters_full(account(users, payer), account(users, payee), n_payments) {
            Err(Outcome::MustNotHappen)
        } else {
            Ok(())
        }
    }
}

/// The accounts after a committed payment: the payer debited, the payee credited.
pub open spec fn settled(users: Seq<User>, payer: i64, payee: i64, amount: nat) -> Seq<User> {
    users.update(account_index(users, payer), debited(account(users, payer), amount)).update(
        account_index(users, payee),
        credited(account(users, payee), amount),
    )
}

/// Replacing one account changes the total by the difference of the balances.
proof fn lemma_total_update(s: Seq<User>, i: int, x: User)
    requires
        0 <= i < s.len(),
    ensures
        balance_total(s.update(i, x)) == balance_total(s) - s[i].credit + x.credit,
    decreases s.len(),
{
    let t = s.update(i, x);
    if i == s.len() - 1 {
        assert(t.drop_last() =~= s.drop_last());
    } else {
        lemma_total_update(s.drop_last(), i, x);
        assert(t.drop_last() =~= s.drop_last().update(i, x));
    }
}

/// Balances within `BALANCE_BOUND` keep both limits of a payment representable.
pub proof fn lemma_bounded_limits_fit(payer: User, payee: User)
    requires
        balance_in_bound(payer),
        balance_in_bound(payee),
    ensures
        limits_fit(payer, payee),
{
    lemma_limit_bounds(payer.payments_out, payer.payments_in);
    lemma_limit_bounds(payee.payments_out, payee.payments_in);
}

/// Relies on `chrono::Local::now`: the local time, as a Unix timestamp and as
/// `YYYY-MM-DD HH:MM:SS` text. Nothing is known of its value.
#[verifier::external_body]
fn local_now() -> (r: (i64, String)) {
    let now = chrono::Local::now();
    (now.timestamp(), now.format("%Y-%m-%d %H:%M:%S").to_string())
}

/// `post` is `pre` after committing a payment of `amount` from `payer` to
/// `payee` carrying `message`: both accounts settled and the payment appended
/// under the next number.
pub open spec fn committed(
    pre: Ledger,
    post: Ledger,
    payer: i64,
    payee: i64,
    amount: u64,
    message: Seq<char>,
) -> bool {
    let rec = post.records().last();
    &&& post.accounts() == settled(pre.accounts(), payer, payee, amount as nat)
    &&& post.records().len() == pre.records().len() + 1
    &&& post.records().drop_last() == pre.records()
    &&& rec.id == pre.records().len() + 1
    &&& rec.payer == payer as u64
    &&& rec.payee == payee as u64
    &&& rec.amount == amount
    &&& rec.message@ == message
}

/// `post` is `pre` with a new account `id` appended: the given name and
/// password digest, zero balance and counters, permission 1.
pub open spec fn opened(pre: Ledger, post: Ledger, id: i64, name: Seq<char>, digest: Seq<char>) -> bool {
    let u = post.accounts().last();
    &&& post.accounts().len() == pre.accounts().len() + 1
    &&& post.accounts().drop_last() == pre.accounts()
    &&& post.records() == pre.records()
    &&& post.minimum() == pre.minimum()
    &&& u.id == id
    &&& u.name@ == name
    &&& u.credit == 0
    &&& u.payments_in == 0
    &&& u.payments_out == 0
    &&& u.password@ == digest
    &&& u.permission == 1
}

/// `post` is `pre` with the password digest of the account `id` replaced by
/// `digest`, and nothing else changed.
pub open spec fn password_changed(pre: Ledger, post: Ledger, id: i64, digest: Seq<char>) -> bool {
    let i = account_index(pre.accounts(), id);
    let u = post.accounts()[i];
    &&& post.accounts().len() == pre.accounts().len()
    &&& forall|k: int|
        0 <= k < pre.accounts().len() && k != i ==> post.accounts()[k] == pre.accounts()[k]
    &&& u == (User { password: u.password, ..pre.accounts()[i] })
    &&& u.password@ == digest
    &&& post.records() == pre.records()
    &&& post.minimum() == pre.minimum()
}

/// Whether the payment involves the account `id`, on either side.
pub open spec fn touches(p: Payment, id: i64) -> bool {
    p.payer == id as u64 || p.payee == id as u64
}

/// The payments of `s` that involve the account `id`, newest first.
pub open spec fn payments_of(s: Seq<Payment>, id: i64) -> Seq<Payment>
    decreases s.len(),
{
    if s.len() == 0 {
        Seq::empty()
    } else if touches(s.last(), id) {
        seq![s.last()] + payments_of(s.drop_last(), id)
    } else {
        payments_of(s.drop_last(), id)
    }
}

/// Position of the first account named `name`, where there is one.
pub open spec fn first_named(users: Seq<User>, name: Seq<char>) -> int {
    choose|k: int|
        0 <= k < users.len() && users[k].name@ == name && forall|j: int|
            0 <= j < k ==> users[j].name@ != name
}

proof fn lemma_total_bound(s: Seq<User>)
    ensures
        -(s.len() * 0x8000_0000_0000_0000) <= balance_total(s) <= s.len() * 0x8000_0000_0000_0000,
    decreases s.len(),
{
    if s.len() > 0 {
        lemma_total_bound(s.drop_last());
    }
}

/// Sum of the balances of `users`: zero for every well-formed pool.
pub fn balance_sum(users: &Vec<User>) -> (r: i128)
    ensures
        r == balance_total(users@),
{
    let mut sum: i128 = 0;
    let mut i: usize = 0;
    while i < users.len()
        invariant
            i <= users@.len(),
            sum == balance_total(users@.subrange(0, i as int)),
        decreases users@.len() - i,
    {
        let ghost next = users@.subrange(0, i + 1);
        assert(next.drop_last() =~= users@.subrange(0, i as int));
        proof {
            lemma_total_bound(users@.subrange(0, i as int));
        }
        sum = sum + users[i].credit as i128;
        i = i + 1;
    }
    assert(users@.subrange(0, users@.len() as int) =~= users@);
    sum
}

/// A pool of accounts and the payments between them.
pub struct Ledger {
    minimal_amount: u64,
    users: Vec<User>,
    payments: Vec<Payment>,
}

impl Ledger {
    /// The smallest amount a payment may carry.
    pub closed spec fn minimum(&self) -> u64 {
        self.minimal_amount
    }

    /// The accounts, in order of creation.
    pub closed spec fn accounts(&self) -> Seq<User> {
        self.users@
    }

    /// The payments, in order of commit.
    pub closed spec fn records(&self) -> Seq<Payment> {
        self.payments@
    }

    /// Ids are unique, balances sum to zero and stay within `BALANCE_BOUND`,
    /// and payments are numbered from 1 in order of commit.
    pub open spec fn wf(&self) -> bool {
        &&& ids_unique(self.accounts())
        &&& balance_total(self.accounts()) == 0
        &&& balances_bounded(self.accounts())
        &&& forall|k: int|
            0 <= k < self.records().len() ==> (#[trigger] self.records()[k]).id == k + 1
    }

    pub fn new(minimal_amount: u64) -> (r: Ledger)
        ensures
            r.wf(),
            r.minimum() == minimal_amount,
            r.accounts() == Seq::<User>::empty(),
            r.records() == Seq::<Payment>::empty(),
    {
        Ledger { minimal_amount, users: Vec::new(), payments: Vec::new() }
    }

    /// The smallest amount a payment may carry.
    pub fn minimal_amount(&self) -> (r: u64)
        ensures
            r == self.minimum(),
    {
        self.minimal_amount
    }

    /// The accounts, in order of creation.
    pub fn get_users(&self) -> (r: &Vec<User>)
        ensures
            r@ == self.accounts(),
    {
        &self.users
    }

    /// The payments, in order of commit.
    pub fn get_payments(&self) -> (r: &Vec<Payment>)
        ensures
            r@ == self.records(),
    {
        &self.payments
    }

    /// The account `id`, if there is one.
    pub fn get_user(&self, id: i64) -> (r: Option<&User>)
        requires
            self.wf(),
        ensures
            r is None <==> !has_account(self.accounts(), id),
            r matches Some(u) ==> *u == account(self.accounts(), id),
    {
        match self.find(id) {
            Some(i) => Some(&self.users[i]),
            None => None,
        }
    }

    /// The first account named `name`, if there is one.
    pub fn get_user_by_name(&self, name: &str) -> (r: Option<&User>)
        ensures
            r is None <==> forall|k: int|
                0 <= k < self.accounts().len() ==> self.accounts()[k].name@ != name@,
            r matches Some(u) ==> *u == self.accounts()[first_named(self.accounts(), name@)],
    {
        let wanted = name.to_owned();
        let mut i: usize = 0;
        while i < self.users.len()
            invariant
                i <= self.users@.len(),
                wanted@ == name@,
                forall|k: int| 0 <= k < i ==> self.users@[k].name@ != name@,
            decreases self.users@.len() - i,
        {
            if self.users[i].name == wanted {
                proof {
                    let k = first_named(self.users@, name@);
                    assert(0 <= k < self.users@.len() && self.users@[k].name@ == name@ && forall|j: int|
                        0 <= j < k ==> self.users@[j].name@ != name@) by {
                        assert(forall|j: int| 0 <= j < i ==> self.users@[j].name@ != name@);
                    }
                    assert(k == i as int);
                    assert(self.accounts()[i as int].name@ == name@);
                }
                return Some(&self.users[i]);
            }
            i = i + 1;
        }
        None
    }

    /// The payments that involve the account `user`, newest first.
    pub fn get_payments_by_user(&self, user: i64) -> (r: Vec<Payment>)
        ensures
            r@ == payments_of(self.records(), user),
    {
        let mut out: Vec<Payment> = Vec::new();
        let mut i: usize = self.payments.len();
        let wanted = #[verifier::truncate] (user as u64);
        assert(self.payments@.subrange(0, i as int) =~= self.payments@);
        assert(out@ + payments_of(self.payments@, user) =~= payments_of(self.payments@, user));
        while i > 0
            invariant
                i <= self.payments@.len(),
                wanted == user as u64,
                out@ + payments_of(self.payments@.subrange(0, i as int), user) == payments_of(
                    self.payments@,
                    user,
                ),
            decreases i,
        {
            let ghost pre = self.payments@.subrange(0, i as int);
            assert(pre.drop_last() =~= self.payments@.subrange(0, i - 1));
            let p = &self.payments[i - 1];
            if p.payer == wanted || p.payee == wanted {
                let ghost before = out@;
                out.push(p.clone());
                assert(out@ =~= before + seq![pre.last()]);
                assert(out@ + payments_of(self.payments@.subrange(0, i - 1), user) =~= before
                    + payments_of(pre, user));
            }
            i = i - 1;
        }
        assert(self.payments@.subrange(0, 0) =~= Seq::<Payment>::empty());
        assert(out@ + Seq::<Payment>::empty() =~= out@);
        out
    }

    /// Opens the account `id` named `name` with the password digest
    /// `password`, stamped `created`; refused when the id is taken.
    pub fn insert_user(&mut self, id: i64, name: &str, password: String, created: String) -> (r:
        Result<(), Outcome>)
        requires
            old(self).wf(),
        ensures
            final(self).wf(),
            r is Err <==> has_account(old(self).accounts(), id),
            r is Err ==> r == Err::<(), Outcome>(Outcome::DuplicateAccount(id)) && *final(self)
                == *old(self),
            r is Ok ==> opened(*old(self), *final(self), id, name@, password@),
            r is Ok ==> final(self).accounts().last().created == created,
    {
        if self.find(id).is_some() {
            return Err(Outcome::DuplicateAccount(id));
        }
        let ghost pre = self.users@;
        let user = User {
            id,
            name: name.to_owned(),
            credit: 0,
            payments_in: 0,
            payments_out: 0,
            password,
            created,
            permission: 1,
        };
        self.users.push(user);
        proof {
            assert(self.users@.drop_last() =~= pre);
            assert(balance_total(self.users@) == balance_total(pre));
            assert(forall|k: int| 0 <= k < pre.len() ==> pre[k].id != id);
            assert(ids_unique(self.users@));
            assert(balances_bounded(self.users@));
            assert(self.records() == old(self).records());
        }
        Ok(())
    }

    /// Opens an account named `name` with password `password`; its id is the
    /// current Unix time.
    pub fn add_user(&mut self, name: &str, password: &str) -> (r: Result<i64, Outcome>)
        requires
            old(self).wf(),
        ensures
            final(self).wf(),
            r matches Ok(id) ==> !has_account(old(self).accounts(), id) && opened(
                *old(self),
                *final(self),
                id,
                name@,
                password_digest(password.spec_bytes()),
            ),
            r matches Err(e) ==> *final(self) == *old(self) && (e matches Outcome::DuplicateAccount(
                id,
            ) && has_account(old(self).accounts(), id)),
    {
        let (id, created) = local_now();
        let digest = hash(password);
        match self.insert_user(id, name, digest, created) {
            Ok(()) => Ok(id),
            Err(e) => Err(e),
        }
    }

    /// Replaces the password digest of the account `user_id` with `digest`.
    pub fn set_password_digest(&mut self, user_id: i64, digest: String) -> (r: Result<(), Outcome>)
        requires
            old(self).wf(),
        ensures
            final(self).wf(),
            r is Err <==> !has_account(old(self).accounts(), user_id),
            r is Err ==> r == Err::<(), Outcome>(Outcome::AccountNotFound(user_id)) && *final(self)
                == *old(self),
            r is Ok ==> password_changed(*old(self), *final(self), user_id, digest@),
    {
        let i = match self.find(user_id) {
            Some(i) => i,
            None => {
                return Err(Outcome::AccountNotFound(user_id));
            },
        };
        let ghost pre = self.users@;
        let mut u = self.users[i].clone();
        u.password = digest;
        self.users.set(i, u);
        proof {
            lemma_total_update(pre, i as int, u);
            assert(forall|k: int| 0 <= k < pre.len() ==> self.users@[k].id == pre[k].id);
            assert(ids_unique(self.users@));
            assert(balances_bounded(self.users@));
            assert(self.records() == old(self).records());
        }
        Ok(())
    }

    /// Sets the password of the account `user_id` to `new_password`.
    pub fn set_password(&mut self, user_id: i64, new_password: &str) -> (r: Result<(), Outcome>)
        requires
            old(self).wf(),
        ensures
            final(self).wf(),
            r is Err <==> !has_account(old(self).accounts(), user_id),
            r is Err ==> r == Err::<(), Outcome>(Outcome::AccountNotFound(user_id)) && *final(self)
                == *old(self),
            r is Ok ==> password_changed(
                *old(self),
                *final(self),
                user_id,
                password_digest(new_password.spec_bytes()),
            ),
    {
        let digest = hash(new_password);
        self.set_password_digest(user_id, digest)
    }

    /// Position of the account `id`, if there is one.
    fn find(&self, id: i64) -> (r: Option<usize>)
        requires
            ids_unique(self.accounts()),
        ensures
            r is None <==> !has_account(self.accounts(), id),
            r matches Some(i) ==> i == account_index(self.accounts(), id) && i
                < self.accounts().len() && self.accounts()[i as int].id == id,
    {
        let mut i: usize = 0;
        while i < self.users.len()
            invariant
                i <= self.users@.len(),
                ids_unique(self.users@),
                forall|k: int| 0 <= k < i ==> self.users@[k].id != id,
            decreases self.users@.len() - i,
        {
            if self.users[i].id == id {
                proof {
                    let k = account_index(self.users@, id);
                    assert(has_account(self.users@, id));
                    assert(self.users@[k].id == id);
                    assert(k == i as int);
                }
                return Some(i);
            }
            i = i + 1;
        }
        None
    }

    /// Records a payment of `amount` from the account `payer` to the account
    /// `payee`, stamped `created`. Either both accounts are settled and the
    /// payment is appended, or nothing changes.
    pub fn add_payment_at(
        &mut self,
        payer: i64,
        payee: i64,
        amount: u64,
        message: &str,
        created: String,
    ) -> (r: Result<(), Outcome>)
        requires
            old(self).wf(),
        ensures
            final(self).wf(),
            final(self).minimum() == old(self).minimum(),
            r == payment_result(
                old(self).accounts(),
                old(self).records().len(),
                payer,
                payee,
                amount as nat,
                old(self).minimum(),
            ),
            r is Err ==> *final(self) == *old(self),
            r is Ok ==> committed(*old(self), *final(self), payer, payee, amount, message@),
            r is Ok ==> final(self).records().last().created == created,
    {
        let ip = match self.find(payer) {
            Some(i) => i,
            None => {
                return Err(Outcome::AccountNotFound(payer));
            },
        };
        let iq = match self.find(payee) {
            Some(i) => i,
            None => {
                return Err(Outcome::AccountNotFound(payee));
            },
        };
        proof {
            lemma_bounded_limits_fit(self.users@[ip as int], self.users@[iq as int]);
            lemma_limit_bounds(self.users@[ip as int].payments_out, self.users@[ip as int].payments_in);
            lemma_limit_bounds(self.users@[iq as int].payments_out, self.users@[iq as int].payments_in);
        }
        match check_payment(&self.users[ip], &self.users[iq], amount, self.minimal_amount) {
            Ok(()) => {},
            Err(e) => {
                return Err(e);
            },
        }
        if self.users[ip].payments_out == u64::MAX || self.users[iq].payments_in == u64::MAX
            || self.payments.len() as u64 >= u64::MAX {
            return Err(Outcome::MustNotHappen);
        }
        let ghost pre = self.users@;
        let payer_credit = (self.users[ip].credit as i128 - amount as i128) as i64;
        let payee_credit = (self.users[iq].credit as i128 + amount as i128) as i64;
        let mut debtor = self.users[ip].clone();
        debtor.credit = payer_credit;
        debtor.payments_out = debtor.payments_out + 1;
        let mut creditor = self.users[iq].clone();
        creditor.credit = payee_credit;
        creditor.payments_in = creditor.payments_in + 1;
        self.users.set(ip, debtor);
        let ghost mid = self.users@;
        self.users.set(iq, creditor);
        proof {
            lemma_total_update(pre, ip as int, debtor);
            lemma_total_update(mid, iq as int, creditor);
            assert(self.users@ == settled(pre, payer, payee, amount as nat));
        }
        let number = self.payments.len() as u64 + 1;
        let text = message.to_owned();
        let ghost before = self.payments@;
        self.payments.push(
            Payment {
                id: number,
                payer: #[verifier::truncate] (payer as u64),
                payee: #[verifier::truncate] (payee as u64),
                amount,
                created,
                message: text,
            },
        );
        assert(self.payments@.drop_last() =~= before);
        assert(self.payments@.last().message@ == message@);
        Ok(())
    }

    /// Records a payment of `amount` from the account `payer` to the account
    /// `payee`, stamped with the local time.
    pub fn add_payment(&mut self, payer: i64, payee: i64, amount: u64, message: &str) -> (r: Result<
        (),
        Outcome,
    >)
        requires
            old(self).wf(),
        ensures
            final(self).wf(),
            final(self).minimum() == old(self).minimum(),
            r == payment_result(
                old(self).accounts(),
                old(self).records().len(),
                payer,
                payee,
                amount as nat,
                old(self).minimum(),
            ),
            r is Err ==> *final(self) == *old(self),
            r is Ok ==> committed(*old(self), *final(self), payer, payee, amount, message@),
    {
        let (_, created) = local_now();
        self.add_payment_at(payer, payee, amount, message, created)
    }
}

} // verus!

verus! {

/// In a well-formed ledger, which every operation of `Ledger` keeps, the
/// balances of all accounts sum to zero.
pub proof fn lemma_zero_sum(ledger: Ledger)
    requires
        ledger.wf(),
    ensures
        balance_total(ledger.accounts()) == 0,
{
}

/// A payment between existing accounts below the minimum amount is refused
/// with the minimum; a refused payment changes nothing.
pub proof fn lemma_below_minimum_refused(
    users: Seq<User>,
    n_payments: nat,
    payer: i64,
    payee: i64,
    amount: nat,
    minimal_amount: u64,
)
    requires
        has_account(users, payer),
        has_account(users, payee),
        amount < minimal_amount,
    ensures
        payment_result(users, n_payments, payer, payee, amount, minimal_amount) == Err::<
            (),
            Outcome,
        >(Outcome::PaymentLessMin(minimal_amount)),
{
}

/// A payment from an existing account to itself, of at least the minimum
/// amount, is refused as a self-payment whatever the balances.
pub proof fn lemma_self_payment_refused(
    users: Seq<User>,
    n_payments: nat,
    id: i64,
    amount: nat,
    minimal_amount: u64,
)
    requires
        has_account(users, id),
        amount >= minimal_amount,
    ensures
        payment_result(users, n_payments, id, id, amount, minimal_amount) == Err::<(), Outcome>(
            Outcome::PaymentSidesEq,
        ),
{
}

/// A committed payment moves exactly `amount` from the payer's balance to the
/// payee's, adds one to the payer's sent count and to the payee's received
/// count, leaves every other account as it was, and keeps the total balance.
pub proof fn lemma_commit_effect(
    pre: Ledger,
    post: Ledger,
    payer: i64,
    payee: i64,
    amount: u64,
    message: Seq<char>,
)
    requires
        pre.wf(),
        payment_result(
            pre.accounts(),
            pre.records().len(),
            payer,
            payee,
            amount as nat,
            pre.minimum(),
        ) is Ok,
        committed(pre, post, payer, payee, amount, message),
    ensures
        payer != payee,
        post.accounts().len() == pre.accounts().len(),
        post.accounts()[account_index(pre.accounts(), payer)].credit == pre.accounts()[account_index(
            pre.accounts(),
            payer,
        )].credit - amount,
        post.accounts()[account_index(pre.accounts(), payer)].payments_out == pre.accounts()[account_index(
            pre.accounts(),
            payer,
        )].payments_out + 1,
        post.accounts()[account_index(pre.accounts(), payee)].credit == pre.accounts()[account_index(
            pre.accounts(),
            payee,
        )].credit + amount,
        post.accounts()[account_index(pre.accounts(), payee)].payments_in == pre.accounts()[account_index(
            pre.accounts(),
            payee,
        )].payments_in + 1,
        forall|k: int|
            0 <= k < pre.accounts().len() && k != account_index(pre.accounts(), payer) && k
                != account_index(pre.accounts(), payee) ==> post.accounts()[k] == pre.accounts()[k],
        balance_total(post.accounts()) == balance_total(pre.accounts()),
{
    let u = pre.accounts();
    let ip = account_index(u, payer);
    let iq = account_index(u, payee);
    assert(u[ip].id == payer);
    assert(u[iq].id == payee);
    assert(balance_in_bound(u[ip]));
    assert(balance_in_bound(u[iq]));
    lemma_limit_bounds(u[ip].payments_out, u[ip].payments_in);
    lemma_limit_bounds(u[iq].payments_out, u[iq].payments_in);
    let d = debited(u[ip], amount as nat);
    let c = credited(u[iq], amount as nat);
    lemma_total_update(u, ip, d);
    lemma_total_update(u.update(ip, d), iq, c);
}

} // verus!
