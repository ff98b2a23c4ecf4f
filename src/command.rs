use vstd::prelude::*;

use crate::text::{amount_string, amount_text, decimal_units, parse_units};

verus! {

/// Identifier of an account holder.
pub type ClientId = u16;

/// Identifier of a transaction.
pub type TxId = u32;

/// An exact signed decimal amount, held as a count of ten-thousandths: the
/// value is `units / 10^4`.
#[derive(Clone, Copy, Debug, PartialEq, Eq, Structural)]
pub struct Amount {
    pub units: i128,
}

impl Amount {
    /// The amount of `units` ten-thousandths.
    pub fn from_units(units: i128) -> (r: Amount)
        ensures
            r.units == units,
    {
        Amount { units }
    }

    /// Parses a decimal number (`-` sign optional, at most four fractional
    /// digits) exactly; `None` when the text is not such a number or is out of
    /// range.
    pub fn parse(s: &str) -> (r: Option<Amount>)
        ensures
            r matches Some(a) ==> decimal_units(s@) == Some(a.units as int),
            r is None ==> decimal_units(s@) is None,
    {
        match parse_units(s) {
            Some(units) => Some(Amount { units }),
            None => None,
        }
    }

    /// The exact decimal text of the amount.
    pub fn to_text(&self) -> (r: String)
        ensures
            r@ == amount_text(self.units as int),
    {
        amount_string(self.units)
    }

    /// The count of ten-thousandths.
    pub fn to_units(self) -> (r: i128)
        ensures
            r == self.units,
    {
        self.units
    }
}

/// One command of the stream, for a single client.
#[derive(Clone, Copy, Debug, PartialEq, Eq, Structural)]
pub enum TxCommand {
    Deposit { tx: TxId, amount: Amount },
    Withdrawal { tx: TxId, amount: Amount },
    Dispute { tx: TxId },
    /// Retracts an open dispute.
    Resolve { tx: TxId },
    /// Finalizes an open dispute against the client and locks the account.
    Chargeback { tx: TxId },
}

/// A command tagged with the client it belongs to.
#[derive(Clone, Copy, Debug, PartialEq, Eq, Structural)]
pub struct Tx {
    pub client_id: ClientId,
    pub command: TxCommand,
}

} // verus!
