use payments_ledger::{Amount, TxCommand, TxCompute};

use TxCommand::{Chargeback, Deposit, Dispute, Resolve, Withdrawal};

fn amount(x: f32) -> Amount {
    Amount::from_units((x * 10000.0) as i128)
}

fn to_f32(x: Amount) -> f32 {
    x.to_units() as f32 / 10000.0
}

fn run_ledger(xs: &[TxCommand]) -> TxCompute {
    let mut st = TxCompute::new();
    for x in xs {
        st.execute_command(*x);
    }
    st
}

fn run(xs: &[TxCommand]) -> (f32, f32, f32) {
    let (available, held, total, _) = run_ledger(xs).snapshot();
    (to_f32(available), to_f32(held), to_f32(total))
}

fn locked(xs: &[TxCommand]) -> bool {
    run_ledger(xs).snapshot().3
}

#[test]
fn test_normal() {
    assert_eq!(
        run(&[
            Deposit { tx: 1, amount: amount(3.0) },
            Withdrawal { tx: 2, amount: amount(2.0) },
        ]),
        (1., 0., 1.)
    );
}

#[test]
fn test_mal_withdrawal() {
    assert_eq!(
        run(&[
            Deposit { tx: 1, amount: amount(3.0) },
            Withdrawal { tx: 2, amount: amount(4.0) },
        ]),
        (3., 0., 3.)
    );
}

#[test]
fn test_mal_dispute() {
    assert_eq!(
        run(&[
            Deposit { tx: 1, amount: amount(3.0) },
            Withdrawal { tx: 2, amount: amount(2.0) },
            // Denied: it would put the client in debt.
            Dispute { tx: 1 },
        ]),
        (1., 0., 1.)
    );
}

#[test]
fn test_normal_dispute() {
    assert_eq!(
        run(&[
            Deposit { tx: 1, amount: amount(3.0) },
            Withdrawal { tx: 2, amount: amount(2.0) },
            Dispute { tx: 2 },
        ]),
        (3., -2., 1.)
    );
}

#[test]
fn test_resolve() {
    assert_eq!(
        run(&[
            Deposit { tx: 1, amount: amount(3.0) },
            Withdrawal { tx: 2, amount: amount(2.0) },
            Dispute { tx: 2 },
            Resolve { tx: 2 },
        ]),
        (1., 0., 1.)
    );
}

#[test]
fn test_chargeback() {
    assert_eq!(
        run(&[
            Deposit { tx: 1, amount: amount(3.0) },
            Withdrawal { tx: 2, amount: amount(2.0) },
            Dispute { tx: 2 },
            Chargeback { tx: 2 },
        ]),
        (3., 0., 3.)
    );
}

#[test]
fn scenarios_report_lock_flag() {
    let base = [
        Deposit { tx: 1, amount: amount(3.0) },
        Withdrawal { tx: 2, amount: amount(2.0) },
    ];
    assert!(!locked(&base));
    assert!(!locked(&[base[0], base[1], Dispute { tx: 2 }]));
    assert!(!locked(&[base[0], base[1], Dispute { tx: 2 }, Resolve { tx: 2 }]));
    assert!(locked(&[base[0], base[1], Dispute { tx: 2 }, Chargeback { tx: 2 }]));
}

#[test]
fn locked_ledger_ignores_everything() {
    let mut st = run_ledger(&[
        Deposit { tx: 1, amount: amount(3.0) },
        Withdrawal { tx: 2, amount: amount(2.0) },
        Dispute { tx: 2 },
        Chargeback { tx: 2 },
    ]);
    let before = st.snapshot();
    for c in [
        Deposit { tx: 3, amount: amount(5.0) },
        Withdrawal { tx: 4, amount: amount(1.0) },
        Dispute { tx: 1 },
        Resolve { tx: 2 },
        Chargeback { tx: 1 },
    ] {
        st.execute_command(c);
        assert_eq!(st.snapshot(), before);
    }
    assert_eq!(run(&[
        Deposit { tx: 1, amount: amount(3.0) },
        Withdrawal { tx: 2, amount: amount(2.0) },
        Dispute { tx: 2 },
        Chargeback { tx: 2 },
        Deposit { tx: 3, amount: amount(5.0) },
    ]), (3., 0., 3.));
}

#[test]
fn chargeback_of_deposit_removes_funds() {
    assert_eq!(
        run(&[
            Deposit { tx: 1, amount: amount(3.0) },
            Deposit { tx: 2, amount: amount(1.5) },
            Dispute { tx: 2 },
        ]),
        (3., 1.5, 4.5)
    );
    assert_eq!(
        run(&[
            Deposit { tx: 1, amount: amount(3.0) },
            Deposit { tx: 2, amount: amount(1.5) },
            Dispute { tx: 2 },
            Chargeback { tx: 2 },
        ]),
        (3., 0., 3.)
    );
}

#[test]
fn dispute_resolve_round_trip_and_redispute() {
    let d = Deposit { tx: 1, amount: amount(3.0) };
    let w = Deposit { tx: 2, amount: amount(1.0) };
    let start = run(&[d, w]);
    assert_eq!(run(&[d, w, Dispute { tx: 1 }, Resolve { tx: 1 }]), start);
    assert_eq!(run(&[d, w, Dispute { tx: 1 }]), (1., 3., 4.));
    assert_eq!(
        run(&[d, w, Dispute { tx: 1 }, Resolve { tx: 1 }, Dispute { tx: 1 }]),
        run(&[d, w, Dispute { tx: 1 }])
    );
}

#[test]
fn rejected_commands_change_nothing() {
    let d = Deposit { tx: 1, amount: amount(3.0) };
    // Unknown transaction, no open dispute, duplicate deposit id.
    assert_eq!(run(&[d, Dispute { tx: 9 }]), (3., 0., 3.));
    assert_eq!(run(&[d, Resolve { tx: 1 }]), (3., 0., 3.));
    assert_eq!(run(&[d, Chargeback { tx: 1 }]), (3., 0., 3.));
    assert_eq!(run(&[d, Deposit { tx: 1, amount: amount(2.0) }]), (3., 0., 3.));
    // A second dispute of the same transaction while one is open.
    assert_eq!(run(&[d, Dispute { tx: 1 }, Dispute { tx: 1 }]), (0., 3., 3.));
    // Non-positive amounts.
    assert_eq!(run(&[d, Deposit { tx: 2, amount: amount(0.0) }]), (3., 0., 3.));
    assert_eq!(run(&[d, Withdrawal { tx: 2, amount: amount(-1.0) }]), (3., 0., 3.));
    // Withdrawing everything is allowed.
    assert_eq!(run(&[d, Withdrawal { tx: 2, amount: amount(3.0) }]), (0., 0., 3. - 3.));
}

#[test]
fn deposit_that_would_overflow_is_rejected() {
    let mut st = TxCompute::new();
    st.execute_command(Deposit { tx: 1, amount: Amount::from_units(i128::MAX) });
    st.execute_command(Deposit { tx: 2, amount: Amount::from_units(1) });
    let (available, held, total, _) = st.snapshot();
    assert_eq!(available.to_units(), i128::MAX);
    assert_eq!(held.to_units(), 0);
    assert_eq!(total.to_units(), i128::MAX);
}

#[test]
fn output_line_renders_exact_decimals() {
    let st = run_ledger(&[
        Deposit { tx: 1, amount: amount(3.0) },
        Withdrawal { tx: 2, amount: amount(2.0) },
        Dispute { tx: 2 },
    ]);
    assert_eq!(st.output(7), "7,3,-2,1,false");
    let st = run_ledger(&[
        Deposit { tx: 1, amount: amount(3.0) },
        Withdrawal { tx: 2, amount: amount(2.0) },
        Dispute { tx: 2 },
        Chargeback { tx: 2 },
    ]);
    assert_eq!(st.output(65535), "65535,3,0,3,true");
    assert_eq!(TxCompute::new().output(0), "0,0,0,0,false");
}

#[test]
fn decimal_amounts_add_exactly() {
    let tenth = Amount::parse("0.1").unwrap();
    let mut st = TxCompute::new();
    st.execute_command(Deposit { tx: 1, amount: tenth });
    st.execute_command(Deposit { tx: 2, amount: tenth });
    st.execute_command(Deposit { tx: 3, amount: tenth });
    assert_eq!(st.output(1), "1,0.3,0,0.3,false");
    st.execute_command(Withdrawal { tx: 4, amount: Amount::parse("0.3").unwrap() });
    assert_eq!(st.output(1), "1,0,0,0,false");
}
