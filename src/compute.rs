use std::collections::HashMap;
use vstd::prelude::*;

use crate::command::{Amount, ClientId, TxCommand, TxId};
use crate::text::{amount_string, amount_text, bool_text, decimal_string, decimal_text};
use vstd::string::StringExecFns;

verus! {

broadcast use vstd::std_specs::hash::group_hash_axioms;

/// Whether `x` can be held in an `i128`.
pub open spec fn fits(x: int) -> bool {
    i128::MIN <= x <= i128::MAX
}

/// The signed effect that an accepted deposit or withdrawal had on
/// `available` and `total`; kept so that a later dispute can reverse it.
#[derive(Clone, Copy, Debug, PartialEq, Eq, Structural)]
pub struct Posting {
    pub add_available: i128,
    pub add_total: i128,
}

/// The signed effect on `available` and `held` that is in force while a
/// transaction is disputed.
#[derive(Clone, Copy, Debug, PartialEq, Eq, Structural)]
pub struct DisputeRecord {
    pub add_available: i128,
    pub add_held: i128,
}

/// What resolving a dispute does to `available` and `held`.
#[derive(Clone, Copy, Debug, PartialEq, Eq, Structural)]
pub struct ResolveEffect {
    pub add_available: i128,
    pub add_held: i128,
}

/// What charging back a dispute does to `held` and `total`.
#[derive(Clone, Copy, Debug, PartialEq, Eq, Structural)]
pub struct ChargebackEffect {
    pub add_held: i128,
    pub add_total: i128,
}

impl Posting {
    /// A posting changes `available` and `total` by the same amount, and
    /// its negation is representable.
    pub open spec fn wf(self) -> bool {
        &&& self.add_available == self.add_total
        &&& self.add_available > i128::MIN
    }

    /// The dispute of this posting: it reverses the `available` part and
    /// books it as held.
    pub open spec fn dispute_spec(self) -> DisputeRecord {
        DisputeRecord { add_available: (-self.add_available) as i128, add_held: self.add_available }
    }

    fn mk_dispute(&self) -> (r: DisputeRecord)
        requires
            self.wf(),
        ensures
            r == self.dispute_spec(),
            r.wf(),
    {
        DisputeRecord { add_available: -self.add_available, add_held: self.add_available }
    }
}

impl DisputeRecord {
    /// A dispute moves funds between `available` and `held` only, and both of
    /// its parts can be negated.
    pub open spec fn wf(self) -> bool {
        &&& self.add_held == -self.add_available
        &&& self.add_available > i128::MIN
    }

    /// Resolving undoes the dispute's effect exactly.
    fn into_resolve(self) -> (r: ResolveEffect)
        requires
            self.wf(),
        ensures
            r.add_available == -self.add_available,
            r.add_held == -self.add_held,
    {
        ResolveEffect { add_available: -self.add_available, add_held: -self.add_held }
    }

    /// Charging back releases the held part and makes the `available` part
    /// final in `total`.
    fn into_chargeback(self) -> (r: ChargebackEffect)
        requires
            self.wf(),
        ensures
            r.add_held == -self.add_held,
            r.add_total == self.add_available,
    {
        ChargebackEffect { add_held: -self.add_held, add_total: self.add_available }
    }
}

/// The mathematical state of one client's ledger.
pub struct LedgerState {
    pub available: int,
    pub held: int,
    pub total: int,
    pub locked: bool,
    /// Every accepted deposit and withdrawal, by transaction.
    pub postings: Map<TxId, Posting>,
    /// The disputes currently open, by transaction.
    pub disputes: Map<TxId, DisputeRecord>,
}

impl LedgerState {
    /// A fresh ledger: zero balances, unlocked, nothing recorded.
    pub open spec fn initial() -> LedgerState {
        LedgerState {
            available: 0,
            held: 0,
            total: 0,
            locked: false,
            postings: Map::empty(),
            disputes: Map::empty(),
        }
    }

    /// The balances are representable, `total == available + held`, and
    /// every record is well formed.
    pub open spec fn wf(self) -> bool {
        &&& fits(self.available)
        &&& fits(self.held)
        &&& fits(self.total)
        &&& self.total == self.available + self.held
        &&& forall|tx: TxId| #[trigger] self.postings.contains_key(tx) ==> self.postings[tx].wf()
        &&& forall|tx: TxId| #[trigger] self.disputes.contains_key(tx) ==> self.disputes[tx].wf()
    }

    /// Whether the ledger accepts the command. A rejected command changes
    /// nothing. Besides the business rules, a command is rejected when a
    /// balance it would produce does not fit the amount representation.
    pub open spec fn accepts(self, c: TxCommand) -> bool {
        !self.locked && match c {
            TxCommand::Deposit { tx, amount } => {
                &&& amount.units > 0
                &&& !self.postings.contains_key(tx)
                &&& fits(self.available + amount.units)
                &&& fits(self.total + amount.units)
            },
            TxCommand::Withdrawal { tx, amount } => {
                &&& amount.units > 0
                &&& self.available - amount.units >= 0
                &&& fits(self.total - amount.units)
            },
            TxCommand::Dispute { tx } => {
                &&& self.postings.contains_key(tx)
                &&& !self.disputes.contains_key(tx)
                &&& self.available - self.postings[tx].add_available >= 0
                &&& fits(self.available - self.postings[tx].add_available)
                &&& fits(self.held + self.postings[tx].add_available)
            },
            TxCommand::Resolve { tx } => {
                &&& self.disputes.contains_key(tx)
                &&& fits(self.available - self.disputes[tx].add_available)
                &&& fits(self.held - self.disputes[tx].add_held)
            },
            TxCommand::Chargeback { tx } => {
                &&& self.disputes.contains_key(tx)
                &&& fits(self.held - self.disputes[tx].add_held)
                &&& fits(self.total + self.disputes[tx].add_available)
            },
        }
    }

    /// What an accepted command does.
    pub open spec fn effect(self, c: TxCommand) -> LedgerState {
        match c {
            TxCommand::Deposit { tx, amount } => LedgerState {
                available: self.available + amount.units,
                total: self.total + amount.units,
                postings: self.postings.insert(
                    tx,
                    Posting { add_available: amount.units, add_total: amount.units },
                ),
                ..self
            },
            TxCommand::Withdrawal { tx, amount } => LedgerState {
                available: self.available - amount.units,
                total: self.total - amount.units,
                postings: self.postings.insert(
                    tx,
                    Posting {
                        add_available: (-amount.units) as i128,
                        add_total: (-amount.units) as i128,
                    },
                ),
                ..self
            },
            TxCommand::Dispute { tx } => LedgerState {
                available: self.available + self.postings[tx].dispute_spec().add_available,
                held: self.held + self.postings[tx].dispute_spec().add_held,
                disputes: self.disputes.insert(tx, self.postings[tx].dispute_spec()),
                ..self
            },
            TxCommand::Resolve { tx } => LedgerState {
                available: self.available - self.disputes[tx].add_available,
                held: self.held - self.disputes[tx].add_held,
                disputes: self.disputes.remove(tx),
                ..self
            },
            TxCommand::Chargeback { tx } => LedgerState {
                held: self.held - self.disputes[tx].add_held,
                total: self.total + self.disputes[tx].add_available,
                disputes: self.disputes.remove(tx),
                locked: true,
                ..self
            },
        }
    }

    /// The state after applying one command.
    pub open spec fn step(self, c: TxCommand) -> LedgerState {
        if self.accepts(c) {
            self.effect(c)
        } else {
            self
        }
    }

    /// The state after applying a sequence of commands in order.
    pub open spec fn run(self, cs: Seq<TxCommand>) -> LedgerState
        decreases cs.len(),
    {
        if cs.len() == 0 {
            self
        } else {
            self.step(cs[0]).run(cs.drop_first())
        }
    }
}

/// The report line of a client: `client,available,held,total,locked`.
pub open spec fn output_line(client_id: ClientId, s: LedgerState) -> Seq<char> {
    decimal_text(client_id as nat) + seq![','] + amount_text(s.available) + seq![',']
        + amount_text(s.held) + seq![','] + amount_text(s.total) + seq![',']
        + bool_text(s.locked)
}

/// The ledger of one client.
pub struct TxCompute {
    available: i128,
    held: i128,
    total: i128,
    postings: HashMap<TxId, Posting>,
    disputes: HashMap<TxId, DisputeRecord>,
    locked: bool,
}

impl View for TxCompute {
    type V = LedgerState;

    closed spec fn view(&self) -> LedgerState {
        LedgerState {
            available: self.available as int,
            held: self.held as int,
            total: self.total as int,
            locked: self.locked,
            postings: self.postings@,
            disputes: self.disputes@,
        }
    }
}

impl TxCompute {
    /// A fresh ledger with zero balances.
    pub fn new() -> (r: TxCompute)
        ensures
            r@ == LedgerState::initial(),
            r@.wf(),
    {
        let r = TxCompute {
            available: 0,
            held: 0,
            total: 0,
            postings: HashMap::new(),
            disputes: HashMap::new(),
            locked: false,
        };
        assert(r@ == LedgerState::initial()) by {
            assert(r@.postings =~= Map::empty());
            assert(r@.disputes =~= Map::empty());
        }
        r
    }

    /// The report line of this ledger for `client_id`.
    pub fn output(&self, client_id: ClientId) -> (r: String)
        ensures
            r@ == output_line(client_id, self@),
    {
        let mut r = decimal_string(client_id as u128);
        r.append(",");
        r.append(amount_string(self.available).as_str());
        r.append(",");
        r.append(amount_string(self.held).as_str());
        r.append(",");
        r.append(amount_string(self.total).as_str());
        r.append(",");
        if self.locked {
            r.append("true");
        } else {
            r.append("false");
        }
        proof {
            reveal_strlit(",");
            reveal_strlit("true");
            reveal_strlit("false");
            assert(r@ =~= output_line(client_id, self@));
        }
        r
    }

    /// Applies one command. A command the ledger does not accept, and any
    /// command once the ledger is locked, leaves it unchanged.
    pub fn execute_command(&mut self, command: TxCommand)
        requires
            old(self)@.wf(),
        ensures
            final(self)@ == old(self)@.step(command),
            final(self)@.wf(),
    {
        proof {
            lemma_step_wf(self@, command);
        }
        if self.locked {
            return;
        }
        match command {
            TxCommand::Deposit { tx, amount } => {
                if amount.units <= 0 || self.postings.contains_key(&tx) {
                    return;
                }
                let eff = Posting { add_available: amount.units, add_total: amount.units };
                match (self.available.checked_add(eff.add_available), self.total.checked_add(eff.add_total)) {
                    (Some(available), Some(total)) => {
                        self.available = available;
                        self.total = total;
                        self.postings.insert(tx, eff);
                    },
                    _ => {},
                }
            },
            TxCommand::Withdrawal { tx, amount } => {
                if amount.units <= 0 {
                    return;
                }
                let eff = Posting { add_available: -amount.units, add_total: -amount.units };
                // No debt.
                if self.available < amount.units {
                    return;
                }
                match self.total.checked_add(eff.add_total) {
                    Some(total) => {
                        self.available = self.available + eff.add_available;
                        self.total = total;
                        self.postings.insert(tx, eff);
                    },
                    None => {},
                }
            },
            TxCommand::Dispute { tx } => {
                if self.disputes.contains_key(&tx) {
                    return;
                }
                let eff = match self.postings.get(&tx) {
                    Some(change) => change.mk_dispute(),
                    None => {
                        return;
                    },
                };
                // A dispute that would put the client in debt is denied,
                // as a withdrawal would be.
                match (self.available.checked_add(eff.add_available), self.held.checked_add(eff.add_held)) {
                    (Some(available), Some(held)) => {
                        if available < 0 {
                            return;
                        }
                        self.available = available;
                        self.held = held;
                        self.disputes.insert(tx, eff);
                    },
                    _ => {},
                }
            },
            TxCommand::Resolve { tx } => {
                let dispute = match self.disputes.get(&tx) {
                    Some(d) => *d,
                    None => {
                        return;
                    },
                };
                let eff = dispute.into_resolve();
                match (self.available.checked_add(eff.add_available), self.held.checked_add(eff.add_held)) {
                    (Some(available), Some(held)) => {
                        self.available = available;
                        self.held = held;
                        self.disputes.remove(&tx);
                    },
                    _ => {},
                }
            },
            TxCommand::Chargeback { tx } => {
                let dispute = match self.disputes.get(&tx) {
                    Some(d) => *d,
                    None => {
                        return;
                    },
                };
                let eff = dispute.into_chargeback();
                match (self.held.checked_add(eff.add_held), self.total.checked_add(eff.add_total)) {
                    (Some(held), Some(total)) => {
                        self.held = held;
                        self.total = total;
                        self.disputes.remove(&tx);
                        self.locked = true;
                    },
                    _ => {},
                }
            },
        }
    }

    /// The balances and the lock flag, as `(available, held, total, locked)`.
    pub fn snapshot(&self) -> (r: (Amount, Amount, Amount, bool))
        ensures
            r.0.units == self@.available,
            r.1.units == self@.held,
            r.2.units == self@.total,
            r.3 == self@.locked,
    {
        (
            Amount { units: self.available },
            Amount { units: self.held },
            Amount { units: self.total },
            self.locked,
        )
    }
}

/// One step keeps a well-formed ledger well formed.
pub proof fn lemma_step_wf(s: LedgerState, c: TxCommand)
    requires
        s.wf(),
    ensures
        s.step(c).wf(),
{
    if s.accepts(c) {
        let t = s.effect(c);
        match c {
            TxCommand::Deposit { tx, amount } => {
                assert forall|k: TxId| #[trigger] t.postings.contains_key(k) implies t.postings[k].wf() by {
                    if k != tx {
                        assert(s.postings.contains_key(k));
                    }
                }
            },
            TxCommand::Withdrawal { tx, amount } => {
                assert forall|k: TxId| #[trigger] t.postings.contains_key(k) implies t.postings[k].wf() by {
                    if k != tx {
                        assert(s.postings.contains_key(k));
                    }
                }
            },
            TxCommand::Dispute { tx } => {
                assert(s.postings[tx].wf());
                assert forall|k: TxId| #[trigger] t.disputes.contains_key(k) implies t.disputes[k].wf() by {
                    if k != tx {
                        assert(s.disputes.contains_key(k));
                    }
                }
            },
            TxCommand::Resolve { tx } => {
                assert(s.disputes[tx].wf());
                assert forall|k: TxId| #[trigger] t.disputes.contains_key(k) implies t.disputes[k].wf() by {
                    assert(s.disputes.contains_key(k));
                }
            },
            TxCommand::Chargeback { tx } => {
                assert(s.disputes[tx].wf());
                assert forall|k: TxId| #[trigger] t.disputes.contains_key(k) implies t.disputes[k].wf() by {
                    assert(s.disputes.contains_key(k));
                }
            },
        }
    }
}

} // verus!
