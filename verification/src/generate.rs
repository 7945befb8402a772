//! The ledger engine: folds an ordered transaction stream into the final
//! mapping from client identifier to account state, applying exactly one
//! transition per transaction, in input order. Accounts are created lazily
//! on the first transaction that references their client.

use vstd::prelude::*;
use std::collections::HashMap;
use crate::accounts::{AccountView, ClientAccount};
use crate::transactions::{spec_amount, Transaction};

verus! {

broadcast use vstd::std_specs::hash::group_hash_axioms;

/// The account the engine works on for client `c`: the stored one, or a
/// fresh one on first reference.
pub open spec fn account_or_new(m: Map<u16, AccountView>, c: u16) -> AccountView {
    if m.dom().contains(c) {
        m[c]
    } else {
        AccountView::initial(c)
    }
}

/// The account states after folding the whole transaction sequence, in
/// order, one transition per transaction.
pub open spec fn accounts_after(txs: Seq<Transaction>) -> Map<u16, AccountView>
    decreases txs.len(),
{
    if txs.len() == 0 {
        Map::empty()
    } else {
        let prev = accounts_after(txs.drop_last());
        let t = txs.last();
        prev.insert(t.client, account_or_new(prev, t.client).after_transaction(t))
    }
}

/// The mathematical content of a map of stored accounts.
pub open spec fn views_of(m: Map<u16, ClientAccount>) -> Map<u16, AccountView> {
    m.map_values(|account: ClientAccount| account@)
}

/// Fold the transaction stream into the final account states.
pub fn generate_client_accounts(transactions: Vec<Transaction>) -> (client_accounts: HashMap<
    u16,
    ClientAccount,
>)
    requires
        forall|k: int| 0 <= k < transactions@.len() ==> (#[trigger] transactions@[k]).wf(),
    ensures
        views_of(client_accounts@) == accounts_after(transactions@),
        forall|c: u16| #[trigger]
            client_accounts@.dom().contains(c) ==> client_accounts@[c]@.wf(),
{
    let mut client_accounts: HashMap<u16, ClientAccount> = HashMap::new();
    proof {
        assert(transactions@.take(0) =~= Seq::<Transaction>::empty());
        assert(views_of(client_accounts@) =~~= accounts_after(transactions@.take(0)));
    }
    let n = transactions.len();
    for idx in 0..n
        invariant
            n == transactions@.len(),
            forall|k: int| 0 <= k < transactions@.len() ==> (#[trigger] transactions@[k]).wf(),
            views_of(client_accounts@) == accounts_after(transactions@.take(idx as int)),
            forall|c: u16| #[trigger]
                client_accounts@.dom().contains(c) ==> client_accounts@[c]@.wf(),
    {
        let transaction = transactions[idx];
        let client = transaction.client;
        let ghost prev = accounts_after(transactions@.take(idx as int));
        let mut account: ClientAccount = match client_accounts.remove(&client) {
            Some(existing) => existing,
            None => ClientAccount::new(client),
        };
        proof {
            assert(account@ == account_or_new(prev, client));
        }
        account.apply_transaction(transaction);
        client_accounts.insert(client, account);
        proof {
            let txs_next = transactions@.take(idx as int + 1);
            assert(txs_next.drop_last() =~= transactions@.take(idx as int));
            assert(txs_next.last() == transactions@[idx as int]);
            assert(views_of(client_accounts@) =~~= prev.insert(
                client,
                account_or_new(prev, client).after_transaction(transaction),
            ));
        }
    }
    proof {
        assert(transactions@.take(n as int) =~= transactions@);
    }
    client_accounts
}

/// After processing any well-formed transaction stream, every account in
/// the result is well-formed: in particular `total == available + held`.
pub proof fn lemma_accounts_after_wf(txs: Seq<Transaction>)
    requires
        forall|k: int| 0 <= k < txs.len() ==> (#[trigger] txs[k]).wf(),
    ensures
        forall|c: u16| #[trigger]
            accounts_after(txs).dom().contains(c) ==> accounts_after(txs)[c].wf(),
    decreases txs.len(),
{
    if txs.len() > 0 {
        let prefix = txs.drop_last();
        assert(forall|k: int| 0 <= k < prefix.len() ==> prefix[k] == txs[k]);
        lemma_accounts_after_wf(prefix);
        let t = txs.last();
        crate::accounts::lemma_after_transaction_wf(
            account_or_new(accounts_after(prefix), t.client),
            t,
        );
    }
}

/// The balance invariants hold of every processed account, after every
/// transaction: `total == available + held` and `held >= 0`.
pub proof fn lemma_balance_invariants(txs: Seq<Transaction>, c: u16)
    requires
        forall|k: int| 0 <= k < txs.len() ==> (#[trigger] txs[k]).wf(),
        accounts_after(txs).dom().contains(c),
    ensures
        accounts_after(txs)[c].total == accounts_after(txs)[c].available + accounts_after(
            txs,
        )[c].held,
        accounts_after(txs)[c].held >= 0,
{
    lemma_accounts_after_wf(txs);
    let a = accounts_after(txs)[c];
    assert(forall|i: int| 0 <= i < a.entries.len() ==> (#[trigger] a.entries[i]).amount >= 0);
    crate::accounts::lemma_sum_disputed_nonneg(a.entries);
}

/// A stream that never references a client leaves that client without an
/// account.
pub proof fn lemma_accounts_after_untouched(txs: Seq<Transaction>, c: u16)
    requires
        forall|k: int| 0 <= k < txs.len() ==> (#[trigger] txs[k]).client != c,
    ensures
        !accounts_after(txs).dom().contains(c),
    decreases txs.len(),
{
    if txs.len() > 0 {
        let prefix = txs.drop_last();
        assert(forall|k: int| 0 <= k < prefix.len() ==> prefix[k] == txs[k]);
        lemma_accounts_after_untouched(prefix, c);
    }
}

/// Processing order matters: a withdrawal that arrives before any other
/// transaction of its client — in particular before its matching deposit —
/// is dropped, since the freshly created account has no available funds.
pub proof fn lemma_withdrawal_before_deposit(txs: Seq<Transaction>, t: Transaction)
    requires
        forall|k: int| 0 <= k < txs.len() ==> (#[trigger] txs[k]).client != t.client,
        t.payment_type is Withdrawal,
        spec_amount(t) > 0,
    ensures
        accounts_after(txs.push(t))[t.client] == AccountView::initial(t.client),
{
    lemma_accounts_after_untouched(txs, t.client);
    assert(txs.push(t).drop_last() =~= txs);
}

} // verus!
