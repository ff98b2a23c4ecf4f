use payments_ledger::reader::{decode_row, parse};
use payments_ledger::ledgers::Ledgers;
use payments_ledger::{Amount, Tx, TxCommand};

fn fields(xs: &[&str]) -> Vec<String> {
    xs.iter().map(|s| s.to_string()).collect()
}

fn amount(s: &str) -> Amount {
    Amount::parse(s).unwrap()
}

fn read_csv(text: &str) -> Vec<Vec<String>> {
    let mut rdr = csv::ReaderBuilder::new()
        .has_headers(true)
        .trim(csv::Trim::All)
        .from_reader(text.as_bytes());
    rdr.records()
        .map(|r| r.unwrap().iter().map(|f| f.to_string()).collect())
        .collect()
}

const SAMPLE: &str = "type, client, tx, amount
deposit, 1, 1, 1.0
deposit, 2, 2, 2.0
deposit, 1, 3, 2.0
withdrawal, 1, 4, 1.5
withdrawal, 2, 5, 3.0
dispute, 1, 1,
resolve, 1, 1,
dispute, 2, 2,
chargeback, 2, 2,
deposit, 3, 6, 0.1234
";

#[test]
fn test_parse_huge_number() {
    // 2^110 + 0.1234
    let x = "1298074214633706907132624082305024.1234";
    let a = Amount::parse(x).unwrap();
    assert_eq!(a.to_units() / 10000, 1i128 << 110);
    assert_eq!(a.to_units() % 10000, 1234);
    assert_eq!(a.to_text(), x);
}

#[test]
fn test_parse() {
    let mut rows = vec![];
    for row in read_csv(SAMPLE) {
        let tx = decode_row(&row);
        assert!(tx.is_some());
        rows.push(tx.unwrap());
    }
    assert_eq!(rows.len(), 10);
}

#[test]
fn parse_whole_stream() {
    let txs = parse(&read_csv(SAMPLE)).unwrap();
    assert_eq!(txs.len(), 10);
    assert_eq!(
        txs[0],
        Tx { client_id: 1, command: TxCommand::Deposit { tx: 1, amount: amount("1.0") } }
    );
    assert_eq!(txs[6], Tx { client_id: 1, command: TxCommand::Resolve { tx: 1 } });
    assert_eq!(txs[8], Tx { client_id: 2, command: TxCommand::Chargeback { tx: 2 } });
}

#[test]
fn parse_stops_at_first_bad_row() {
    let rows = vec![
        fields(&["deposit", "1", "1", "1.0"]),
        fields(&["refund", "1", "2", ""]),
        fields(&["deposit", "1", "x", "1.0"]),
    ];
    assert_eq!(parse(&rows), Err(1));
    assert_eq!(parse(&vec![]), Ok(vec![]));
}

#[test]
fn decode_each_kind() {
    assert_eq!(
        decode_row(&fields(&["withdrawal", "65535", "4294967295", "2.5"])),
        Some(Tx {
            client_id: 65535,
            command: TxCommand::Withdrawal { tx: 4294967295, amount: Amount::from_units(25000) },
        })
    );
    assert_eq!(
        decode_row(&fields(&["dispute", "3", "7", ""])),
        Some(Tx { client_id: 3, command: TxCommand::Dispute { tx: 7 } })
    );
    assert_eq!(
        decode_row(&fields(&["resolve", "3", "7", ""])),
        Some(Tx { client_id: 3, command: TxCommand::Resolve { tx: 7 } })
    );
    assert_eq!(
        decode_row(&fields(&["chargeback", "0", "0", ""])),
        Some(Tx { client_id: 0, command: TxCommand::Chargeback { tx: 0 } })
    );
}

#[test]
fn decode_rejects_malformed_rows() {
    // Amount present for a dispute, absent for a deposit.
    assert_eq!(decode_row(&fields(&["dispute", "1", "1", "1.0"])), None);
    assert_eq!(decode_row(&fields(&["deposit", "1", "1", ""])), None);
    // Unknown or differently cased tag.
    assert_eq!(decode_row(&fields(&["Deposit", "1", "1", "1.0"])), None);
    assert_eq!(decode_row(&fields(&["refund", "1", "1", ""])), None);
    // Out-of-range or non-numeric identifiers.
    assert_eq!(decode_row(&fields(&["deposit", "65536", "1", "1.0"])), None);
    assert_eq!(decode_row(&fields(&["deposit", "1", "4294967296", "1.0"])), None);
    assert_eq!(decode_row(&fields(&["deposit", "-1", "1", "1.0"])), None);
    assert_eq!(decode_row(&fields(&["deposit", "", "1", "1.0"])), None);
    // Non-numeric amount, wrong field count.
    assert_eq!(decode_row(&fields(&["deposit", "1", "1", "abc"])), None);
    assert_eq!(decode_row(&fields(&["deposit", "1", "1"])), None);
}

#[test]
fn amount_text_round_trip() {
    assert_eq!(amount("3.5").to_units(), 35000);
    assert_eq!(amount("3.5").to_text(), "3.5");
    assert_eq!(amount("3.5000").to_text(), "3.5");
    assert_eq!(amount("-2").to_units(), -20000);
    assert_eq!(amount("-2").to_text(), "-2");
    assert_eq!(amount("0.0001").to_units(), 1);
    assert_eq!(amount("-0.05").to_text(), "-0.05");
    assert_eq!(amount("10.12").to_text(), "10.12");
    assert_eq!(amount("007.100").to_text(), "7.1");
    assert_eq!(Amount::from_units(i128::MIN).to_text(), "-17014118346046923173168730371588410.5728");
    assert_eq!(Amount::parse("-17014118346046923173168730371588410.5728"), Some(Amount::from_units(i128::MIN)));
    assert_eq!(Amount::parse("17014118346046923173168730371588410.5727"), Some(Amount::from_units(i128::MAX)));
    assert!(Amount::parse("17014118346046923173168730371588410.5728").is_none());
    for bad in ["", "-", ".", "1.", ".5", "1.23456", "1.2.3", "--1", "+1", "1e3", "abc", "1,5"] {
        assert!(Amount::parse(bad).is_none(), "{bad}");
    }
}

#[test]
fn route_stream_to_clients() {
    let txs = parse(&read_csv(SAMPLE)).unwrap();
    let ledgers = Ledgers::process(&txs);
    assert_eq!(
        ledgers.report(),
        vec![
            "1,1.5,0,1.5,false".to_string(),
            "2,0,0,0,true".to_string(),
            "3,0.1234,0,0.1234,false".to_string(),
        ]
    );
}
