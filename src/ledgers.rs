use std::collections::HashMap;
use vstd::prelude::*;

use crate::command::{ClientId, Tx};
use crate::compute::{output_line, LedgerState, TxCompute};

verus! {

broadcast use vstd::std_specs::hash::group_hash_axioms;

/// The mathematical state of all ledgers: the clients in order of first
/// appearance, and the ledger of each.
pub struct LedgersView {
    pub clients: Seq<ClientId>,
    pub ledgers: Map<ClientId, LedgerState>,
}

impl LedgersView {
    /// No client seen yet.
    pub open spec fn empty() -> LedgersView {
        LedgersView { clients: Seq::empty(), ledgers: Map::empty() }
    }

    /// Each client is listed once, exactly the listed clients have a
    /// ledger, and every ledger is well formed.
    pub open spec fn wf(self) -> bool {
        &&& self.clients.no_duplicates()
        &&& forall|c: ClientId| #[trigger] self.ledgers.contains_key(c) <==> self.clients.contains(c)
        &&& forall|c: ClientId| #[trigger] self.ledgers.contains_key(c) ==> self.ledgers[c].wf()
    }

    /// The ledger of `c`; a fresh one for a client not seen yet.
    pub open spec fn ledger_of(self, c: ClientId) -> LedgerState {
        if self.ledgers.contains_key(c) {
            self.ledgers[c]
        } else {
            LedgerState::initial()
        }
    }

    /// Routes one transaction to its client's ledger, creating the ledger on
    /// first reference.
    pub open spec fn apply(self, tx: Tx) -> LedgersView {
        LedgersView {
            clients: if self.ledgers.contains_key(tx.client_id) {
                self.clients
            } else {
                self.clients.push(tx.client_id)
            },
            ledgers: self.ledgers.insert(tx.client_id, self.ledger_of(tx.client_id).step(tx.command)),
        }
    }
}

/// The state after routing a stream of transactions, in order.
pub open spec fn route(txs: Seq<Tx>) -> LedgersView
    decreases txs.len(),
{
    if txs.len() == 0 {
        LedgersView::empty()
    } else {
        route(txs.drop_last()).apply(txs.last())
    }
}

/// The ledgers of all clients seen so far.
pub struct Ledgers {
    clients: Vec<ClientId>,
    ledgers: HashMap<ClientId, TxCompute>,
}

impl View for Ledgers {
    type V = LedgersView;

    closed spec fn view(&self) -> LedgersView {
        LedgersView { clients: self.clients@, ledgers: self.ledgers@.map_values(|l: TxCompute| l@) }
    }
}

impl Ledgers {
    /// No ledger yet.
    pub fn new() -> (r: Ledgers)
        ensures
            r@ == LedgersView::empty(),
            r@.wf(),
    {
        let r = Ledgers { clients: Vec::new(), ledgers: HashMap::new() };
        proof {
            assert(r@.clients =~= Seq::empty());
            assert(r@.ledgers =~= Map::empty());
        }
        r
    }

    /// Applies the transaction's command to its client's ledger.
    pub fn apply(&mut self, tx: Tx)
        requires
            old(self)@.wf(),
        ensures
            final(self)@ == old(self)@.apply(tx),
            final(self)@.wf(),
    {
        let ghost before = self@;
        let c = tx.client_id;
        let mut ledger = match self.ledgers.remove(&c) {
            Some(l) => l,
            None => {
                self.clients.push(c);
                TxCompute::new()
            },
        };
        assert(ledger@ == before.ledger_of(c));
        ledger.execute_command(tx.command);
        self.ledgers.insert(c, ledger);
        proof {
            let after = before.apply(tx);
            assert(self@.ledgers =~= after.ledgers);
            assert(self@.clients =~= after.clients);
            assert forall|k: ClientId| #[trigger] after.ledgers.contains_key(k) <==> after.clients.contains(k) by {
                if k != c {
                    if after.clients.contains(k) {
                        let j = choose|j: int| 0 <= j < after.clients.len() && after.clients[j] == k;
                        assert(before.clients[j] == k);
                    }
                    if before.clients.contains(k) {
                        let j = choose|j: int| 0 <= j < before.clients.len() && before.clients[j] == k;
                        assert(after.clients[j] == k);
                    }
                } else {
                    if !before.ledgers.contains_key(c) {
                        assert(after.clients[after.clients.len() - 1] == c);
                    }
                }
            }
        }
    }

    /// Routes every transaction of the stream, in order.
    pub fn process(txs: &Vec<Tx>) -> (r: Ledgers)
        ensures
            r@ == route(txs@),
            r@.wf(),
    {
        let mut r = Ledgers::new();
        let mut i: usize = 0;
        while i < txs.len()
            invariant
                0 <= i <= txs@.len(),
                r@ == route(txs@.subrange(0, i as int)),
                r@.wf(),
            decreases txs@.len() - i,
        {
            proof {
                assert(txs@.subrange(0, i + 1).drop_last() =~= txs@.subrange(0, i as int));
            }
            r.apply(txs[i]);
            i = i + 1;
        }
        proof {
            assert(txs@.subrange(0, txs@.len() as int) =~= txs@);
        }
        r
    }

    /// One report line per client, in order of first appearance.
    pub fn report(&self) -> (r: Vec<String>)
        requires
            self@.wf(),
        ensures
            r@.len() == self@.clients.len(),
            forall|i: int|
                0 <= i < r@.len() ==> (#[trigger] r@[i])@ == output_line(
                    self@.clients[i],
                    self@.ledgers[self@.clients[i]],
                ),
    {
        let mut out: Vec<String> = Vec::new();
        let mut i: usize = 0;
        while i < self.clients.len()
            invariant
                0 <= i <= self@.clients.len(),
                self@.wf(),
                out@.len() == i,
                forall|j: int|
                    0 <= j < i ==> (#[trigger] out@[j])@ == output_line(
                        self@.clients[j],
                        self@.ledgers[self@.clients[j]],
                    ),
            decreases self@.clients.len() - i,
        {
            let c = self.clients[i];
            assert(self@.clients.contains(c));
            assert(self@.ledgers.contains_key(c));
            assert(self.ledgers@.contains_key(c));
            match self.ledgers.get(&c) {
                Some(l) => out.push(l.output(c)),
                None => {
                    assert(false);
                },
            }
            i = i + 1;
        }
        out
    }
}

} // verus!
