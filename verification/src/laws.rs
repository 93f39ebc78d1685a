//! The guarantees of the account state machine, stated and proved once
//! and for all: what a run over a whole transaction sequence preserves,
//! and which events can never move a balance.

use vstd::prelude::*;
use crate::amount::in_amount_range;
use crate::transaction::{ClientId, Transaction, spec_client, spec_tx, spec_amount};
use crate::transaction_engine::{
    AccountView, step, engine_step, filtered_history, single_monetary, open_dispute,
    dispute_prefix, initial_account, distinct_clients, has_client, client_index,
};

verus! {

/// The balances of `a` are representable amounts.
pub open spec fn account_balances_wf(a: AccountView) -> bool {
    in_amount_range(a.available) && in_amount_range(a.held)
}

/// The account after a whole sequence of transactions, applied in order.
pub open spec fn run(a: AccountView, ts: Seq<Transaction>) -> AccountView
    decreases ts.len(),
{
    if ts.len() == 0 {
        a
    } else {
        step(run(a, ts.drop_last()), ts.last())
    }
}

/// A run keeps both balances representable, so the snapshot's total
/// (available + held, computed at snapshot time) is always the exact
/// sum of the two rendered balances.
pub proof fn lemma_run_keeps_balances_representable(a: AccountView, ts: Seq<Transaction>)
    requires
        account_balances_wf(a),
    ensures
        account_balances_wf(run(a, ts)),
    decreases ts.len(),
{
    if ts.len() > 0 {
        lemma_run_keeps_balances_representable(a, ts.drop_last());
    }
}

/// The transactions of `ts` that belong to client `c`, in order.
pub open spec fn client_stream(ts: Seq<Transaction>, c: ClientId) -> Seq<Transaction>
    decreases ts.len(),
{
    if ts.len() == 0 {
        Seq::empty()
    } else {
        let rest = client_stream(ts.drop_last(), c);
        if spec_client(ts.last()) == c {
            rest.push(ts.last())
        } else {
            rest
        }
    }
}

/// The whole ledger after a sequence of transactions, applied in order.
pub open spec fn engine_run(s: Seq<AccountView>, ts: Seq<Transaction>) -> Seq<AccountView>
    decreases ts.len(),
{
    if ts.len() == 0 {
        s
    } else {
        engine_step(engine_run(s, ts.drop_last()), ts.last())
    }
}

/// A step never changes which client an account belongs to.
proof fn lemma_step_keeps_client(a: AccountView, t: Transaction)
    ensures
        step(a, t).client == a.client,
{
}

/// Clients never interact: after any transaction sequence, the ledger
/// holds one account per client ever referenced, and that account is
/// exactly the fresh-account run of the sequence restricted to the
/// client, in input order.
pub proof fn lemma_engine_routes_each_client(ts: Seq<Transaction>, c: ClientId)
    ensures
        distinct_clients(engine_run(Seq::empty(), ts)),
        has_client(engine_run(Seq::empty(), ts), c) <==> client_stream(ts, c).len() > 0,
        has_client(engine_run(Seq::empty(), ts), c) ==> engine_run(Seq::empty(), ts)[client_index(
            engine_run(Seq::empty(), ts),
            c,
        )] == run(initial_account(c), client_stream(ts, c)),
    decreases ts.len(),
{
    let e = Seq::<AccountView>::empty();
    if ts.len() == 0 {
        assert(!has_client(e, c));
    } else {
        let prior = ts.drop_last();
        let t = ts.last();
        let tc = spec_client(t);
        let s0 = engine_run(e, prior);
        let s1 = engine_run(e, ts);
        lemma_engine_routes_each_client(prior, c);
        lemma_engine_routes_each_client(prior, tc);
        let cs = client_stream(prior, c);
        // the step changes only the account of t's client, at a stable index
        if has_client(s0, tc) {
            let k = client_index(s0, tc);
            assert(0 <= k < s0.len() && s0[k].client == tc);
            lemma_step_keeps_client(s0[k], t);
            assert(s1 == s0.update(k, step(s0[k], t)));
            assert(forall|i: int| 0 <= i < s1.len() ==> #[trigger] s1[i].client == s0[i].client);
            assert(distinct_clients(s1));
            if c == tc {
                assert(client_stream(ts, c) =~= cs.push(t));
                assert(cs.push(t).drop_last() =~= cs);
                assert(run(initial_account(c), cs.push(t)) == step(
                    run(initial_account(c), cs),
                    t,
                ));
                assert(s1[k].client == c);
                assert(has_client(s1, c));
                let k1 = client_index(s1, c);
                assert(0 <= k1 < s1.len() && s1[k1].client == c);
                assert(k1 == k);
                assert(s1[k] == step(run(initial_account(c), cs), t));
            } else {
                assert(client_stream(ts, c) =~= cs);
                if has_client(s0, c) {
                    let j = client_index(s0, c);
                    assert(0 <= j < s0.len() && s0[j].client == c);
                    assert(j != k);
                    assert(s1[j] == s0[j]);
                    assert(has_client(s1, c));
                    let j1 = client_index(s1, c);
                    assert(0 <= j1 < s1.len() && s1[j1].client == c);
                    assert(j1 == j);
                } else {
                    assert(forall|i: int| 0 <= i < s1.len() ==> #[trigger] s1[i].client != c);
                    assert(!has_client(s1, c));
                }
            }
        } else {
            assert(s1 == s0.push(step(initial_account(tc), t)));
            lemma_step_keeps_client(initial_account(tc), t);
            assert(s1[s0.len() as int].client == tc);
            assert(forall|i: int| 0 <= i < s0.len() ==> #[trigger] s1[i] == s0[i]);
            assert(forall|i: int| 0 <= i < s0.len() ==> #[trigger] s0[i].client != tc);
            assert(distinct_clients(s1));
            if c == tc {
                assert(client_stream(prior, c).len() == 0);
                let csf = client_stream(ts, c);
                assert(csf =~= Seq::empty().push(t));
                assert(csf.len() == 1);
                assert(csf.last() == t);
                assert(csf.drop_last() =~= Seq::<Transaction>::empty());
                assert(run(initial_account(c), csf.drop_last()) == initial_account(c));
                assert(run(initial_account(c), csf) == step(initial_account(c), t));
                assert(s1[s0.len() as int].client == c);
                assert(has_client(s1, c));
                let k1 = client_index(s1, c);
                assert(0 <= k1 < s1.len() && s1[k1].client == c);
                assert(k1 == s0.len() as int);
            } else {
                assert(client_stream(ts, c) =~= cs);
                if has_client(s0, c) {
                    let j = client_index(s0, c);
                    assert(0 <= j < s0.len() && s0[j].client == c);
                    assert(s1[j] == s0[j]);
                    assert(s1[j].client == c);
                    assert(has_client(s1, c));
                    let j1 = client_index(s1, c);
                    assert(0 <= j1 < s1.len() && s1[j1].client == c);
                    assert(j1 == j);
                } else {
                    assert(forall|i: int| 0 <= i < s1.len() ==> #[trigger] s1[i].client != c);
                    assert(!has_client(s1, c));
                }
            }
        }
    }
}

/// A locked account ignores every further transaction of any kind:
/// balances, lock flag and history all stay exactly as they are.
pub proof fn lemma_locked_account_is_frozen(a: AccountView, ts: Seq<Transaction>)
    requires
        a.locked,
    ensures
        run(a, ts) == a,
    decreases ts.len(),
{
    if ts.len() > 0 {
        lemma_locked_account_is_frozen(a, ts.drop_last());
    }
}

/// Once a chargeback fires it locks the account, and every subsequent
/// transaction leaves available, held and locked unchanged.
pub proof fn lemma_chargeback_freezes(a: AccountView, t: Transaction, ts: Seq<Transaction>)
    requires
        !a.locked,
        t is Chargeback,
        dispute_prefix(filtered_history(a.history, spec_tx(t))),
        in_amount_range(a.held - spec_amount(filtered_history(a.history, spec_tx(t))[0])),
    ensures
        step(a, t).locked,
        run(step(a, t), ts) == step(a, t),
{
    lemma_locked_account_is_frozen(step(a, t), ts);
}

/// A withdrawal moves `available` down by its amount exactly when the
/// account is unlocked and the available funds cover it; otherwise
/// available, held and locked are all unchanged.
pub proof fn lemma_withdrawal_only_with_funds(a: AccountView, t: Transaction)
    requires
        t is Withdrawal,
        0 <= spec_amount(t),
        in_amount_range(a.available),
    ensures
        (!a.locked && a.available >= spec_amount(t)) ==> {
            &&& step(a, t).available == a.available - spec_amount(t)
            &&& step(a, t).held == a.held
            &&& step(a, t).locked == a.locked
        },
        !(!a.locked && a.available >= spec_amount(t)) ==> {
            &&& step(a, t).available == a.available
            &&& step(a, t).held == a.held
            &&& step(a, t).locked == a.locked
        },
{
}

/// Every history entry whose tx id matches appears in the filtered view.
proof fn lemma_filtered_contains(h: Seq<Transaction>, t: u32, i: int)
    requires
        0 <= i < h.len(),
        spec_tx(h[i]) == t,
    ensures
        filtered_history(h, t).contains(h[i]),
    decreases h.len(),
{
    let f = filtered_history(h, t);
    if i == h.len() - 1 {
        assert(f[f.len() - 1] == h[i]);
    } else {
        lemma_filtered_contains(h.drop_last(), t, i);
        assert(h.drop_last()[i] == h[i]);
        let f0 = filtered_history(h.drop_last(), t);
        let j = choose|j: int| 0 <= j < f0.len() && f0[j] == h[i];
        assert(f[j] == h[i]);
    }
}

/// A dispute of a transaction id that the history already records a
/// dispute for — with or without an intervening resolve — never changes
/// available, held or locked.
pub proof fn lemma_repeated_dispute_is_noop(a: AccountView, t: Transaction)
    requires
        t is Dispute,
        exists|i: int|
            0 <= i < a.history.len() && (#[trigger] a.history[i]) is Dispute && spec_tx(
                a.history[i],
            ) == spec_tx(t),
    ensures
        step(a, t).available == a.available,
        step(a, t).held == a.held,
        step(a, t).locked == a.locked,
{
    if !a.locked {
        let i = choose|i: int|
            0 <= i < a.history.len() && (#[trigger] a.history[i]) is Dispute && spec_tx(
                a.history[i],
            ) == spec_tx(t);
        lemma_filtered_contains(a.history, spec_tx(t), i);
        let f = filtered_history(a.history, spec_tx(t));
        if single_monetary(f) {
            let j = choose|j: int| 0 <= j < f.len() && f[j] == a.history[i];
            assert(f[0] == a.history[i]);
            assert(false);
        }
    }
}

/// A resolve whose transaction id has no open dispute — no filtered
/// history of exactly one monetary entry followed by one dispute —
/// never changes available, held or locked.
pub proof fn lemma_resolve_without_open_dispute_is_noop(a: AccountView, t: Transaction)
    requires
        t is Resolve,
        !open_dispute(filtered_history(a.history, spec_tx(t))),
    ensures
        step(a, t).available == a.available,
        step(a, t).held == a.held,
        step(a, t).locked == a.locked,
{
}

/// A chargeback whose transaction id's filtered history does not start
/// with a monetary entry followed by a dispute never changes available,
/// held or locked.
pub proof fn lemma_chargeback_without_dispute_is_noop(a: AccountView, t: Transaction)
    requires
        t is Chargeback,
        !dispute_prefix(filtered_history(a.history, spec_tx(t))),
    ensures
        step(a, t).available == a.available,
        step(a, t).held == a.held,
        step(a, t).locked == a.locked,
{
}

} // verus!
