//! Client accounts and the per-transaction state transitions.
//!
//! An account keeps its balances as ten-thousandths (see `amount`) together
//! with the history of deposits and withdrawals it has accepted. Each
//! history entry carries the dispute lifecycle of that settled transaction:
//! it starts `Active`, a dispute moves it to `Disputed` (freezing its
//! amount), a resolve moves it back to `Active`, and a chargeback moves it
//! to `ChargedBack`, which is terminal and locks the account. Tracking the
//! lifecycle explicitly means funds are never double-held and a resolve or
//! chargeback without an active dispute is a no-op.
//!
//! Every transition preserves `total == available + held` and keeps `held`
//! equal to the sum of the amounts currently under dispute, hence
//! non-negative. No transition fails: a transaction that cannot be applied
//! (locked account, insufficient funds, unknown or unavailable reference,
//! or a balance that would leave the representable range) is dropped and
//! the account is left unchanged.

use vstd::prelude::*;
use vstd::pervasive::VecAdditionalExecFns;
use crate::transactions::{spec_amount, Transaction, TransactionType};

verus! {

/// The dispute lifecycle of one settled deposit or withdrawal.
#[derive(Clone, Copy, Debug, PartialEq, Eq, Structural)]
pub enum DisputeState {
    /// Settled and open to a dispute.
    Active,
    /// Under an active dispute; its amount is held.
    Disputed,
    /// Charged back; terminal.
    ChargedBack,
}

/// One deposit or withdrawal the account has accepted, with the current
/// state of its dispute lifecycle.
#[derive(Clone, Copy, Debug, PartialEq)]
pub struct LedgerEntry {
    pub payment_type: TransactionType,
    pub tx: u32,
    pub amount: i64,
    pub state: DisputeState,
}

impl LedgerEntry {
    pub open spec fn wf(self) -> bool {
        &&& self.amount >= 0
        &&& (self.payment_type is Deposit || self.payment_type is Withdrawal)
    }
}

/// The amount an entry contributes to the held funds: its amount while it
/// is under dispute, nothing otherwise.
pub open spec fn held_amount(e: LedgerEntry) -> int {
    if e.state is Disputed {
        e.amount as int
    } else {
        0
    }
}

/// The sum of the amounts currently under dispute.
pub open spec fn sum_disputed(s: Seq<LedgerEntry>) -> int
    decreases s.len(),
{
    if s.len() == 0 {
        0
    } else {
        sum_disputed(s.drop_last()) + held_amount(s.last())
    }
}

pub proof fn lemma_sum_disputed_nonneg(s: Seq<LedgerEntry>)
    requires
        forall|i: int| 0 <= i < s.len() ==> (#[trigger] s[i]).amount >= 0,
    ensures
        sum_disputed(s) >= 0,
    decreases s.len(),
{
    if s.len() > 0 {
        lemma_sum_disputed_nonneg(s.drop_last());
    }
}

pub proof fn lemma_sum_disputed_push(s: Seq<LedgerEntry>, e: LedgerEntry)
    ensures
        sum_disputed(s.push(e)) == sum_disputed(s) + held_amount(e),
{
    assert(s.push(e).drop_last() =~= s);
}

pub proof fn lemma_sum_disputed_update(s: Seq<LedgerEntry>, i: int, e: LedgerEntry)
    requires
        0 <= i < s.len(),
    ensures
        sum_disputed(s.update(i, e)) == sum_disputed(s) - held_amount(s[i]) + held_amount(e),
    decreases s.len(),
{
    let s2 = s.update(i, e);
    if i == s.len() - 1 {
        assert(s2.drop_last() =~= s.drop_last());
    } else {
        assert(s2.drop_last() =~= s.drop_last().update(i, e));
        lemma_sum_disputed_update(s.drop_last(), i, e);
    }
}

/// If an entry is under dispute, the held sum covers its amount.
pub proof fn lemma_sum_disputed_at_least(s: Seq<LedgerEntry>, i: int)
    requires
        forall|j: int| 0 <= j < s.len() ==> (#[trigger] s[j]).amount >= 0,
        0 <= i < s.len(),
        s[i].state is Disputed,
    ensures
        sum_disputed(s) >= s[i].amount,
    decreases s.len(),
{
    if i == s.len() - 1 {
        lemma_sum_disputed_nonneg(s.drop_last());
    } else {
        lemma_sum_disputed_at_least(s.drop_last(), i);
    }
}

/// Index of the first history entry carrying the given transaction id.
pub open spec fn find_entry(s: Seq<LedgerEntry>, tx: u32) -> Option<int>
    decreases s.len(),
{
    if s.len() == 0 {
        None
    } else if s[0].tx == tx {
        Some(0)
    } else {
        match find_entry(s.subrange(1, s.len() as int), tx) {
            Some(i) => Some(i + 1),
            None => None,
        }
    }
}

/// `find_entry` yields the first match, and `None` only when nothing
/// matches.
pub proof fn lemma_find_entry(s: Seq<LedgerEntry>, tx: u32)
    ensures
        match find_entry(s, tx) {
            Some(i) => 0 <= i < s.len() && s[i].tx == tx && forall|j: int|
                0 <= j < i ==> (#[trigger] s[j]).tx != tx,
            None => forall|j: int| 0 <= j < s.len() ==> (#[trigger] s[j]).tx != tx,
        },
    decreases s.len(),
{
    if s.len() > 0 && s[0].tx != tx {
        let tail = s.subrange(1, s.len() as int);
        lemma_find_entry(tail, tx);
        assert(forall|j: int| 1 <= j < s.len() ==> (#[trigger] s[j]) == tail[j - 1]);
    }
}

/// Conversely, the first match is what `find_entry` yields.
pub proof fn lemma_find_entry_is(s: Seq<LedgerEntry>, tx: u32, i: int)
    requires
        0 <= i < s.len(),
        s[i].tx == tx,
        forall|j: int| 0 <= j < i ==> (#[trigger] s[j]).tx != tx,
    ensures
        find_entry(s, tx) == Some(i),
{
    lemma_find_entry(s, tx);
    match find_entry(s, tx) {
        Some(k) => {
            if k < i {
                assert(s[k].tx != tx);
            } else if k > i {
                assert(s[i].tx != tx);
            }
        },
        None => {
            assert(s[i].tx != tx);
        },
    }
}

/// The mathematical state of one client account.
#[verifier::ext_equal]
pub ghost struct AccountView {
    pub client: u16,
    pub available: int,
    pub held: int,
    pub total: int,
    pub locked: bool,
    pub entries: Seq<LedgerEntry>,
}

/// The history entry recording a freshly accepted deposit or withdrawal.
pub open spec fn entry_of(t: Transaction) -> LedgerEntry {
    LedgerEntry {
        payment_type: t.payment_type,
        tx: t.tx,
        amount: match t.amount {
            Some(a) => a,
            None => 0,
        },
        state: DisputeState::Active,
    }
}

impl AccountView {
    /// A fresh account: zero balances, unlocked, no history.
    pub open spec fn initial(client: u16) -> AccountView {
        AccountView {
            client,
            available: 0,
            held: 0,
            total: 0,
            locked: false,
            entries: Seq::empty(),
        }
    }

    /// The balance invariants: the total is the available and held funds,
    /// the held funds are exactly the amounts currently under dispute, and
    /// every history entry is a well-formed deposit or withdrawal.
    pub open spec fn wf(self) -> bool {
        &&& self.total == self.available + self.held
        &&& self.held == sum_disputed(self.entries)
        &&& forall|i: int| 0 <= i < self.entries.len() ==> (#[trigger] self.entries[i]).wf()
    }

    /// The account after a deposit: on a locked account, or when a balance
    /// would leave the representable range, the record is dropped;
    /// otherwise the amount joins the available and total funds and the
    /// record joins the history.
    pub open spec fn after_deposit(self, t: Transaction) -> AccountView {
        let amt = spec_amount(t);
        if self.locked {
            self
        } else if self.available + amt > i64::MAX || self.total + amt > i64::MAX {
            self
        } else {
            AccountView {
                available: self.available + amt,
                total: self.total + amt,
                entries: self.entries.push(entry_of(t)),
                ..self
            }
        }
    }

    /// The account after a withdrawal: dropped on a locked account or when
    /// the amount exceeds the available funds; otherwise the amount leaves
    /// the available and total funds and the record joins the history.
    pub open spec fn after_withdrawal(self, t: Transaction) -> AccountView {
        let amt = spec_amount(t);
        if self.locked {
            self
        } else if amt > self.available {
            self
        } else {
            AccountView {
                available: self.available - amt,
                total: self.total - amt,
                entries: self.entries.push(entry_of(t)),
                ..self
            }
        }
    }

    /// The account after a dispute of `t.tx`: if the referenced deposit or
    /// withdrawal exists, is open to a dispute, and the shifted balances
    /// stay representable, its amount moves from available to held funds;
    /// otherwise the dispute is dropped.
    pub open spec fn after_dispute(self, t: Transaction) -> AccountView {
        match find_entry(self.entries, t.tx) {
            None => self,
            Some(i) => {
                let e = self.entries[i];
                if !(e.state is Active) {
                    self
                } else if self.available - e.amount < i64::MIN || self.held + e.amount
                    > i64::MAX {
                    self
                } else {
                    AccountView {
                        available: self.available - e.amount,
                        held: self.held + e.amount,
                        entries: self.entries.update(
                            i,
                            LedgerEntry { state: DisputeState::Disputed, ..e },
                        ),
                        ..self
                    }
                }
            },
        }
    }

    /// The account after a resolve of `t.tx`: if the referenced entry is
    /// under dispute, its amount moves back from held to available funds
    /// and the entry is open to a dispute again; otherwise the resolve is
    /// dropped.
    pub open spec fn after_resolve(self, t: Transaction) -> AccountView {
        match find_entry(self.entries, t.tx) {
            None => self,
            Some(i) => {
                let e = self.entries[i];
                if !(e.state is Disputed) {
                    self
                } else {
                    AccountView {
                        available: self.available + e.amount,
                        held: self.held - e.amount,
                        entries: self.entries.update(
                            i,
                            LedgerEntry { state: DisputeState::Active, ..e },
                        ),
                        ..self
                    }
                }
            },
        }
    }

    /// The account after a chargeback of `t.tx`: if the referenced entry
    /// is under dispute, its amount leaves the held and total funds, the
    /// entry is closed for good and the account is locked; otherwise the
    /// chargeback is dropped.
    pub open spec fn after_chargeback(self, t: Transaction) -> AccountView {
        match find_entry(self.entries, t.tx) {
            None => self,
            Some(i) => {
                let e = self.entries[i];
                if !(e.state is Disputed) {
                    self
                } else {
                    AccountView {
                        held: self.held - e.amount,
                        total: self.total - e.amount,
                        locked: true,
                        entries: self.entries.update(
                            i,
                            LedgerEntry { state: DisputeState::ChargedBack, ..e },
                        ),
                        ..self
                    }
                }
            },
        }
    }

    /// The account after one transaction of any kind.
    pub open spec fn after_transaction(self, t: Transaction) -> AccountView {
        match t.payment_type {
            TransactionType::Deposit => self.after_deposit(t),
            TransactionType::Withdrawal => self.after_withdrawal(t),
            TransactionType::Dispute => self.after_dispute(t),
            TransactionType::Resolve => self.after_resolve(t),
            TransactionType::Chargeback => self.after_chargeback(t),
        }
    }

    /// Whether a dispute of `tx` takes effect: the referenced entry
    /// exists, is open to a dispute, and the shifted balances stay
    /// representable.
    pub open spec fn dispute_applies(self, tx: u32) -> bool {
        match find_entry(self.entries, tx) {
            Some(i) => self.entries[i].state is Active && self.available - self.entries[i].amount
                >= i64::MIN && self.held + self.entries[i].amount <= i64::MAX,
            None => false,
        }
    }

    /// The amount of the history entry that a dispute, resolve or
    /// chargeback of `tx` refers to; zero when there is none.
    pub open spec fn referenced_amount(self, tx: u32) -> int {
        match find_entry(self.entries, tx) {
            Some(i) => self.entries[i].amount as int,
            None => 0,
        }
    }
}

/// Every transition takes a well-formed account to a well-formed account.
pub proof fn lemma_after_transaction_wf(a: AccountView, t: Transaction)
    requires
        a.wf(),
        t.wf(),
    ensures
        a.after_transaction(t).wf(),
{
    match t.payment_type {
        TransactionType::Deposit => {
            if !a.locked && a.available + spec_amount(t) <= i64::MAX && a.total + spec_amount(t)
                <= i64::MAX {
                lemma_sum_disputed_push(a.entries, entry_of(t));
            }
        },
        TransactionType::Withdrawal => {
            if !a.locked && spec_amount(t) <= a.available {
                lemma_sum_disputed_push(a.entries, entry_of(t));
            }
        },
        TransactionType::Dispute => {
            lemma_find_entry(a.entries, t.tx);
            if let Some(i) = find_entry(a.entries, t.tx) {
                let e = a.entries[i];
                if e.state is Active && a.available - e.amount >= i64::MIN && a.held + e.amount
                    <= i64::MAX {
                    lemma_sum_disputed_update(
                        a.entries,
                        i,
                        LedgerEntry { state: DisputeState::Disputed, ..e },
                    );
                }
            }
        },
        TransactionType::Resolve => {
            lemma_find_entry(a.entries, t.tx);
            if let Some(i) = find_entry(a.entries, t.tx) {
                let e = a.entries[i];
                if e.state is Disputed {
                    lemma_sum_disputed_update(
                        a.entries,
                        i,
                        LedgerEntry { state: DisputeState::Active, ..e },
                    );
                }
            }
        },
        TransactionType::Chargeback => {
            lemma_find_entry(a.entries, t.tx);
            if let Some(i) = find_entry(a.entries, t.tx) {
                let e = a.entries[i];
                if e.state is Disputed {
                    lemma_sum_disputed_update(
                        a.entries,
                        i,
                        LedgerEntry { state: DisputeState::ChargedBack, ..e },
                    );
                }
            }
        },
    }
}

/// A deposit on a locked account leaves the account unchanged.
pub proof fn lemma_deposit_on_locked_unchanged(a: AccountView, t: Transaction)
    requires
        a.locked,
    ensures
        a.after_deposit(t) == a,
{
}

/// A withdrawal of more than the available funds leaves the account
/// unchanged.
pub proof fn lemma_withdrawal_insufficient_unchanged(a: AccountView, t: Transaction)
    requires
        spec_amount(t) > a.available,
    ensures
        a.after_withdrawal(t) == a,
{
}

/// A dispute followed by its resolve restores the account exactly to its
/// pre-dispute state.
pub proof fn lemma_dispute_resolve_round_trip(a: AccountView, d: Transaction, r: Transaction)
    requires
        a.wf(),
        a.dispute_applies(d.tx),
        r.tx == d.tx,
    ensures
        a.after_dispute(d).after_resolve(r) == a,
{
    lemma_find_entry(a.entries, d.tx);
    if let Some(i) = find_entry(a.entries, d.tx) {
        let e = a.entries[i];
        let disputed = LedgerEntry { state: DisputeState::Disputed, ..e };
        let b = a.after_dispute(d);
        lemma_find_entry_is(b.entries, r.tx, i);
        let restored = LedgerEntry { state: DisputeState::Active, ..disputed };
        assert(restored == e);
        assert(b.after_resolve(r).entries =~= a.entries);
        assert(b.after_resolve(r) =~~= a);
    }
}

/// A dispute followed by its chargeback leaves the available funds where
/// the dispute put them, removes the disputed amount from the held and
/// total funds, and locks the account.
pub proof fn lemma_dispute_chargeback(a: AccountView, d: Transaction, cb: Transaction)
    requires
        a.wf(),
        a.dispute_applies(d.tx),
        cb.tx == d.tx,
    ensures
        ({
            let b = a.after_dispute(d);
            let c = b.after_chargeback(cb);
            &&& c.available == b.available
            &&& c.held == b.held - a.referenced_amount(d.tx)
            &&& c.total == b.total - a.referenced_amount(d.tx)
            &&& c.locked
        }),
{
    lemma_find_entry(a.entries, d.tx);
    if let Some(i) = find_entry(a.entries, d.tx) {
        let b = a.after_dispute(d);
        lemma_find_entry_is(b.entries, cb.tx, i);
    }
}

/// The externally visible projection of an account: what the output
/// collaborator renders. The history is not part of the external
/// contract.
#[derive(Clone, Copy, Debug, PartialEq)]
pub struct ExternalClientAccount {
    pub client: u16,
    pub available: i64,
    pub held: i64,
    pub total: i64,
    pub locked: bool,
}

impl ExternalClientAccount {
    pub fn from_account(account: &ClientAccount) -> (external: ExternalClientAccount)
        ensures
            external.client == account@.client,
            external.available == account@.available,
            external.held == account@.held,
            external.total == account@.total,
            external.locked == account@.locked,
    {
        ExternalClientAccount {
            client: account.client,
            available: account.available,
            held: account.held,
            total: account.total,
            locked: account.locked,
        }
    }
}

/// One client account: balances in ten-thousandths, the lock flag, and the
/// history of accepted deposits and withdrawals.
#[derive(Debug, PartialEq)]
pub struct ClientAccount {
    pub client: u16,
    pub available: i64,
    pub held: i64,
    pub total: i64,
    pub locked: bool,
    pub transactions: Vec<LedgerEntry>,
}

impl View for ClientAccount {
    type V = AccountView;

    open spec fn view(&self) -> AccountView {
        AccountView {
            client: self.client,
            available: self.available as int,
            held: self.held as int,
            total: self.total as int,
            locked: self.locked,
            entries: self.transactions@,
        }
    }
}

impl ClientAccount {
    pub fn new(client_id: u16) -> (account: ClientAccount)
        ensures
            account@ == AccountView::initial(client_id),
            account@.wf(),
    {
        let account = ClientAccount {
            client: client_id,
            available: 0,
            held: 0,
            total: 0,
            locked: false,
            transactions: Vec::new(),
        };
        proof {
            assert(account@ =~= AccountView::initial(client_id));
        }
        account
    }

    /// An account seeded with an available balance and no history.
    pub fn new_for_testing(client_id: u16, balance: i64) -> (account: ClientAccount)
        ensures
            account@ == (AccountView {
                available: balance as int,
                total: balance as int,
                ..AccountView::initial(client_id)
            }),
            account@.wf(),
    {
        let account = ClientAccount {
            client: client_id,
            available: balance,
            held: 0,
            total: balance,
            locked: false,
            transactions: Vec::new(),
        };
        proof {
            assert(account@ =~= (AccountView {
                available: balance as int,
                total: balance as int,
                ..AccountView::initial(client_id)
            }));
        }
        account
    }

    pub fn is_locked(&self) -> (locked: bool)
        ensures
            locked == self@.locked,
    {
        self.locked
    }

    pub fn lock_account(&mut self)
        ensures
            final(self)@ == (AccountView { locked: true, ..old(self)@ }),
            old(self)@.wf() ==> final(self)@.wf(),
    {
        self.locked = true;
        proof {
            assert(self@ =~= (AccountView { locked: true, ..old(self)@ }));
        }
    }

    /// Apply a deposit, per the deposit transition.
    pub fn deposit_to_account(&mut self, transaction: Transaction)
        requires
            old(self)@.wf(),
            transaction.wf(),
            transaction.payment_type is Deposit,
        ensures
            final(self)@ == old(self)@.after_deposit(transaction),
            final(self)@.wf(),
    {
        if self.is_locked() {
            return ;
        }
        let amount = transaction.amount.unwrap();
        if self.available > i64::MAX - amount || self.total > i64::MAX - amount {
            // the balance would leave the representable range: drop
            return ;
        }
        self.available = self.available + amount;
        self.total = self.total + amount;
        let entry = LedgerEntry {
            payment_type: transaction.payment_type,
            tx: transaction.tx,
            amount,
            state: DisputeState::Active,
        };
        self.transactions.push(entry);
        proof {
            lemma_sum_disputed_push(old(self)@.entries, entry);
            assert(self@ =~= old(self)@.after_deposit(transaction));
        }
    }

    /// Apply a withdrawal, per the withdrawal transition.
    pub fn withdraw_from_account(&mut self, transaction: Transaction)
        requires
            old(self)@.wf(),
            transaction.wf(),
            transaction.payment_type is Withdrawal,
        ensures
            final(self)@ == old(self)@.after_withdrawal(transaction),
            final(self)@.wf(),
    {
        if self.is_locked() {
            return ;
        }
        let amount = transaction.amount.unwrap();
        if amount > self.available {
            // insufficient funds: drop
            return ;
        }
        proof {
            lemma_sum_disputed_nonneg(old(self)@.entries);
        }
        self.available = self.available - amount;
        self.total = self.total - amount;
        let entry = LedgerEntry {
            payment_type: transaction.payment_type,
            tx: transaction.tx,
            amount,
            state: DisputeState::Active,
        };
        self.transactions.push(entry);
        proof {
            lemma_sum_disputed_push(old(self)@.entries, entry);
            assert(self@ =~= old(self)@.after_withdrawal(transaction));
        }
    }

    /// The first history entry carrying the referenced transaction id.
    fn find_valid_transaction(&self, trx_id: u32) -> (found: Option<usize>)
        ensures
            match found {
                Some(i) => i < self.transactions.len() && find_entry(self@.entries, trx_id)
                    == Some(i as int),
                None => find_entry(self@.entries, trx_id) is None,
            },
    {
        let n = self.transactions.len();
        for i in 0..n
            invariant
                n == self.transactions.len(),
                forall|j: int| 0 <= j < i ==> (#[trigger] self.transactions@[j]).tx != trx_id,
        {
            if self.transactions[i].tx == trx_id {
                proof {
                    lemma_find_entry_is(self@.entries, trx_id, i as int);
                }
                return Some(i);
            }
        }
        proof {
            lemma_find_entry(self@.entries, trx_id);
        }
        None
    }

    /// Apply a dispute, per the dispute transition.
    pub fn dispute_to_account(&mut self, transaction: Transaction)
        requires
            old(self)@.wf(),
        ensures
            final(self)@ == old(self)@.after_dispute(transaction),
            final(self)@.wf(),
    {
        let found = self.find_valid_transaction(transaction.tx);
        if let Some(i) = found {
            let entry = self.transactions[i];
            if matches!(entry.state, DisputeState::Active) {
                if self.available < i64::MIN + entry.amount || self.held > i64::MAX
                    - entry.amount {
                    // the shifted balances would leave the representable range: drop
                    return ;
                }
                self.available = self.available - entry.amount;
                self.held = self.held + entry.amount;
                let updated = LedgerEntry { state: DisputeState::Disputed, ..entry };
                self.transactions.set(i, updated);
                proof {
                    lemma_sum_disputed_update(old(self)@.entries, i as int, updated);
                    assert(self@ =~= old(self)@.after_dispute(transaction));
                }
            }
        }
    }

    /// Apply a resolve, per the resolve transition.
    pub fn resolve_to_account(&mut self, transaction: Transaction)
        requires
            old(self)@.wf(),
        ensures
            final(self)@ == old(self)@.after_resolve(transaction),
            final(self)@.wf(),
    {
        let found = self.find_valid_transaction(transaction.tx);
        if let Some(i) = found {
            let entry = self.transactions[i];
            if matches!(entry.state, DisputeState::Disputed) {
                proof {
                    lemma_sum_disputed_at_least(old(self)@.entries, i as int);
                }
                self.available = self.available + entry.amount;
                self.held = self.held - entry.amount;
                let updated = LedgerEntry { state: DisputeState::Active, ..entry };
                self.transactions.set(i, updated);
                proof {
                    lemma_sum_disputed_update(old(self)@.entries, i as int, updated);
                    assert(self@ =~= old(self)@.after_resolve(transaction));
                }
            }
        }
    }

    /// Apply a chargeback, per the chargeback transition.
    pub fn chargeback_to_account(&mut self, transaction: Transaction)
        requires
            old(self)@.wf(),
        ensures
            final(self)@ == old(self)@.after_chargeback(transaction),
            final(self)@.wf(),
    {
        let found = self.find_valid_transaction(transaction.tx);
        if let Some(i) = found {
            let entry = self.transactions[i];
            if matches!(entry.state, DisputeState::Disputed) {
                proof {
                    lemma_sum_disputed_at_least(old(self)@.entries, i as int);
                }
                self.held = self.held - entry.amount;
                self.total = self.total - entry.amount;
                let updated = LedgerEntry { state: DisputeState::ChargedBack, ..entry };
                self.transactions.set(i, updated);
                self.locked = true;
                proof {
                    lemma_sum_disputed_update(old(self)@.entries, i as int, updated);
                    assert(self@ =~= old(self)@.after_chargeback(transaction));
                }
            }
        }
    }

    /// Apply one transaction of any kind, dispatching on its kind.
    pub fn apply_transaction(&mut self, transaction: Transaction)
        requires
            old(self)@.wf(),
            transaction.wf(),
        ensures
            final(self)@ == old(self)@.after_transaction(transaction),
            final(self)@.wf(),
    {
        match transaction.payment_type {
            TransactionType::Deposit => self.deposit_to_account(transaction),
            TransactionType::Withdrawal => self.withdraw_from_account(transaction),
            TransactionType::Dispute => self.dispute_to_account(transaction),
            TransactionType::Resolve => self.resolve_to_account(transaction),
            TransactionType::Chargeback => self.chargeback_to_account(transaction),
        }
    }
}

} // verus!
