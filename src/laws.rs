use vstd::prelude::*;

use crate::command::{ClientId, Tx, TxCommand, TxId};
use crate::compute::{lemma_step_wf, LedgerState};
use crate::ledgers::route;

verus! {

/// A fresh ledger is well formed.
pub proof fn lemma_initial_wf()
    ensures
        LedgerState::initial().wf(),
{
}

/// Any sequence of commands keeps a well-formed ledger well formed.
pub proof fn lemma_run_wf(s: LedgerState, cs: Seq<TxCommand>)
    requires
        s.wf(),
    ensures
        s.run(cs).wf(),
    decreases cs.len(),
{
    if cs.len() > 0 {
        lemma_step_wf(s, cs[0]);
        lemma_run_wf(s.step(cs[0]), cs.drop_first());
    }
}

/// For every sequence of commands applied to a fresh ledger,
/// `total == available + held` holds exactly afterwards (and so after each
/// prefix of the sequence).
pub proof fn lemma_balance_invariant(cs: Seq<TxCommand>)
    ensures
        LedgerState::initial().run(cs).total == LedgerState::initial().run(cs).available
            + LedgerState::initial().run(cs).held,
        LedgerState::initial().run(cs).wf(),
{
    lemma_run_wf(LedgerState::initial(), cs);
}

/// An accepted withdrawal or dispute never leaves `available` negative.
pub proof fn lemma_accepted_no_debt(s: LedgerState, c: TxCommand)
    requires
        s.wf(),
        s.accepts(c),
        c is Withdrawal || c is Dispute,
    ensures
        s.step(c).available >= 0,
{
}

/// A rejected command leaves the ledger unchanged.
pub proof fn lemma_rejected_unchanged(s: LedgerState, c: TxCommand)
    requires
        !s.accepts(c),
    ensures
        s.step(c) == s,
{
}

/// Once locked, a ledger is left unchanged by any command, and stays locked.
pub proof fn lemma_locked_noop(s: LedgerState, c: TxCommand)
    requires
        s.locked,
    ensures
        s.step(c) == s,
{
}

/// Once locked, a ledger is left unchanged by any sequence of commands.
pub proof fn lemma_locked_run_noop(s: LedgerState, cs: Seq<TxCommand>)
    requires
        s.locked,
    ensures
        s.run(cs) == s,
    decreases cs.len(),
{
    if cs.len() > 0 {
        lemma_locked_run_noop(s.step(cs[0]), cs.drop_first());
    }
}

/// Disputing a posted transaction with no open dispute and then resolving it
/// restores the ledger, `available` and `held` included.
pub proof fn lemma_dispute_resolve_round_trip(s: LedgerState, tx: TxId)
    requires
        s.wf(),
        s.postings.contains_key(tx),
        !s.disputes.contains_key(tx),
    ensures
        s.step(TxCommand::Dispute { tx }).step(TxCommand::Resolve { tx }) == s,
        s.step(TxCommand::Dispute { tx }).step(TxCommand::Resolve { tx }).available == s.available,
        s.step(TxCommand::Dispute { tx }).step(TxCommand::Resolve { tx }).held == s.held,
{
    let d = TxCommand::Dispute { tx };
    if s.accepts(d) {
        let t = s.step(d);
        assert(t.disputes.contains_key(tx));
        assert(t.disputes.remove(tx) =~= s.disputes);
    }
}

/// After a dispute has been resolved, the same transaction can be disputed
/// again, with the same result as the first dispute.
pub proof fn lemma_redispute_after_resolve(s: LedgerState, tx: TxId)
    requires
        s.wf(),
        s.postings.contains_key(tx),
        !s.disputes.contains_key(tx),
    ensures
        s.step(TxCommand::Dispute { tx }).step(TxCommand::Resolve { tx }).step(
            TxCommand::Dispute { tx },
        ) == s.step(TxCommand::Dispute { tx }),
{
    lemma_dispute_resolve_round_trip(s, tx);
}

/// The commands of the stream that belong to client `c`, in order.
pub open spec fn commands_for(txs: Seq<Tx>, c: ClientId) -> Seq<TxCommand>
    decreases txs.len(),
{
    if txs.len() == 0 {
        Seq::empty()
    } else if txs.last().client_id == c {
        commands_for(txs.drop_last(), c).push(txs.last().command)
    } else {
        commands_for(txs.drop_last(), c)
    }
}

/// Running one more command is one more step.
pub proof fn lemma_run_push(s: LedgerState, cs: Seq<TxCommand>, x: TxCommand)
    ensures
        s.run(cs.push(x)) == s.run(cs).step(x),
    decreases cs.len(),
{
    if cs.len() == 0 {
        assert(cs.push(x).drop_first() =~= Seq::<TxCommand>::empty());
        assert(s.step(x).run(Seq::<TxCommand>::empty()) == s.step(x));
    } else {
        assert(cs.push(x).drop_first() =~= cs.drop_first().push(x));
        assert(cs.push(x)[0] == cs[0]);
        lemma_run_push(s.step(cs[0]), cs.drop_first(), x);
    }
}

/// Clients are independent: after routing a stream, the ledger of each
/// client is a fresh ledger that has run that client's own commands, in
/// stream order.
pub proof fn lemma_route_per_client(txs: Seq<Tx>, c: ClientId)
    ensures
        route(txs).ledger_of(c) == LedgerState::initial().run(commands_for(txs, c)),
    decreases txs.len(),
{
    if txs.len() > 0 {
        lemma_route_per_client(txs.drop_last(), c);
        if txs.last().client_id == c {
            lemma_run_push(LedgerState::initial(), commands_for(txs.drop_last(), c), txs.last().command);
        }
    }
}

} // verus!
