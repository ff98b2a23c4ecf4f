use vstd::prelude::*;

use crate::command::{Amount, ClientId, Tx, TxCommand, TxId};
use crate::text::{decimal_units, digits_value, is_digits, lemma_digits_prefix_le, parse_units};

verus! {

/// The unsigned integer written by `s`, when it is one and at most `max`.
pub open spec fn unsigned_of(s: Seq<char>, max: int) -> Option<int> {
    if is_digits(s) && digits_value(s) <= max {
        Some(digits_value(s))
    } else {
        None
    }
}

/// The amount column: empty for no amount, else a decimal number.
pub open spec fn amount_of(s: Seq<char>) -> Option<Option<Amount>> {
    if s.len() == 0 {
        Some(None)
    } else {
        match decimal_units(s) {
            Some(units) => Some(Some(Amount { units: units as i128 })),
            None => None,
        }
    }
}

/// The command that a type tag names; the amount must be present exactly for
/// deposits and withdrawals.
pub open spec fn command_of(tag: Seq<char>, tx: TxId, amount: Option<Amount>) -> Option<TxCommand> {
    match amount {
        Some(a) => if tag == "deposit"@ {
            Some(TxCommand::Deposit { tx, amount: a })
        } else if tag == "withdrawal"@ {
            Some(TxCommand::Withdrawal { tx, amount: a })
        } else {
            None
        },
        None => if tag == "dispute"@ {
            Some(TxCommand::Dispute { tx })
        } else if tag == "resolve"@ {
            Some(TxCommand::Resolve { tx })
        } else if tag == "chargeback"@ {
            Some(TxCommand::Chargeback { tx })
        } else {
            None
        },
    }
}

/// The transaction that a record of four trimmed fields (type, client,
/// transaction, amount) describes, or `None` for a malformed record.
pub open spec fn decode_spec(f: Seq<Seq<char>>) -> Option<Tx> {
    if f.len() != 4 {
        None
    } else {
        match (
            unsigned_of(f[1], u16::MAX as int),
            unsigned_of(f[2], u32::MAX as int),
            amount_of(f[3]),
        ) {
            (Some(c), Some(t), Some(a)) => match command_of(f[0], t as TxId, a) {
                Some(command) => Some(Tx { client_id: c as ClientId, command }),
                None => None,
            },
            _ => None,
        }
    }
}

/// The text of each field of a record.
pub open spec fn fields_view(f: Seq<String>) -> Seq<Seq<char>> {
    f.map_values(|s: String| s@)
}

/// Parses a run of decimal digits no larger than `max`.
fn parse_unsigned(s: &str, max: u32) -> (r: Option<u32>)
    ensures
        r matches Some(v) ==> unsigned_of(s@, max as int) == Some(v as int),
        r is None ==> unsigned_of(s@, max as int) is None,
{
    let n = s.unicode_len();
    if n == 0 {
        return None;
    }
    let mut value: u64 = 0;
    let mut i: usize = 0;
    while i < n
        invariant
            n == s@.len(),
            0 <= i <= n,
            value == digits_value(s@.subrange(0, i as int)),
            value <= max,
            forall|j: int| 0 <= j < i ==> '0' <= #[trigger] s@[j] <= '9',
        decreases n - i,
    {
        let c = s.get_char(i);
        if c < '0' || c > '9' {
            return None;
        }
        let d = (c as u32 - '0' as u32) as u64;
        proof {
            assert(s@.subrange(0, i + 1).drop_last() =~= s@.subrange(0, i as int));
        }
        value = value * 10 + d;
        i = i + 1;
        if value > max as u64 {
            proof {
                if is_digits(s@) {
                    lemma_digits_prefix_le(s@, i as int);
                }
            }
            return None;
        }
    }
    proof {
        assert(s@.subrange(0, n as int) =~= s@);
    }
    Some(value as u32)
}

/// Whether two texts are equal.
fn same_text(a: &str, b: &str) -> (r: bool)
    ensures
        r == (a@ == b@),
{
    let n = a.unicode_len();
    if n != b.unicode_len() {
        return false;
    }
    let mut i: usize = 0;
    while i < n
        invariant
            n == a@.len(),
            n == b@.len(),
            0 <= i <= n,
            forall|j: int| 0 <= j < i ==> a@[j] == b@[j],
        decreases n - i,
    {
        if a.get_char(i) != b.get_char(i) {
            return false;
        }
        i = i + 1;
    }
    proof {
        assert(a@ =~= b@);
    }
    true
}

/// Decodes one record of trimmed fields: type tag, client, transaction and
/// amount (empty when absent).
pub fn decode_row(fields: &Vec<String>) -> (r: Option<Tx>)
    ensures
        r == decode_spec(fields_view(fields@)),
{
    proof {
        reveal_strlit("deposit");
        reveal_strlit("withdrawal");
        reveal_strlit("dispute");
        reveal_strlit("resolve");
        reveal_strlit("chargeback");
    }
    let ghost f = fields_view(fields@);
    if fields.len() != 4 {
        return None;
    }
    assert(f[1] == fields@[1]@ && f[2] == fields@[2]@ && f[3] == fields@[3]@ && f[0] == fields@[0]@);
    let client = match parse_unsigned(fields[1].as_str(), 65535) {
        Some(c) => c as ClientId,
        None => {
            return None;
        },
    };
    let tx = match parse_unsigned(fields[2].as_str(), 4294967295) {
        Some(t) => t as TxId,
        None => {
            return None;
        },
    };
    let amount_text = fields[3].as_str();
    let tag = fields[0].as_str();
    let command = if amount_text.unicode_len() == 0 {
        if same_text(tag, "dispute") {
            TxCommand::Dispute { tx }
        } else if same_text(tag, "resolve") {
            TxCommand::Resolve { tx }
        } else if same_text(tag, "chargeback") {
            TxCommand::Chargeback { tx }
        } else {
            return None;
        }
    } else {
        let amount = match parse_units(amount_text) {
            Some(units) => Amount { units },
            None => {
                return None;
            },
        };
        if same_text(tag, "deposit") {
            TxCommand::Deposit { tx, amount }
        } else if same_text(tag, "withdrawal") {
            TxCommand::Withdrawal { tx, amount }
        } else {
            return None;
        }
    };
    Some(Tx { client_id: client, command })
}

/// Decodes every record in order. Stops at the first malformed record and
/// returns its index: a stream with a bad record cannot be trusted at all.
pub fn parse(rows: &Vec<Vec<String>>) -> (r: Result<Vec<Tx>, usize>)
    ensures
        r matches Ok(v) ==> {
            &&& v@.len() == rows@.len()
            &&& forall|i: int|
                0 <= i < rows@.len() ==> decode_spec(fields_view(#[trigger] rows@[i]@)) == Some(
                    v@[i],
                )
        },
        r matches Err(k) ==> {
            &&& k < rows@.len()
            &&& decode_spec(fields_view(rows@[k as int]@)) is None
            &&& forall|i: int|
                0 <= i < k ==> decode_spec(fields_view(#[trigger] rows@[i]@)) is Some
        },
{
    let mut out: Vec<Tx> = Vec::new();
    let mut i: usize = 0;
    while i < rows.len()
        invariant
            0 <= i <= rows@.len(),
            out@.len() == i,
            forall|j: int|
                0 <= j < i ==> decode_spec(fields_view(#[trigger] rows@[j]@)) == Some(out@[j]),
        decreases rows@.len() - i,
    {
        match decode_row(&rows[i]) {
            Some(tx) => out.push(tx),
            None => {
                return Err(i);
            },
        }
        i = i + 1;
    }
    Ok(out)
}

} // verus!
