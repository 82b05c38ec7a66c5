use wayex_ledger::amount::Amount;
use wayex_ledger::calendar::{CalendarDate, Timestamp};
use wayex_ledger::ledger::LedgerRecord;
use wayex_ledger::reconcile::{
    reconcile, LedgerPool, MatchOutcome, Policy, ReconcileError, Window,
};
use wayex_ledger::record::{Asset, ExternalRecord, TransactionKind};
use wayex_ledger::totals::{running_totals, Totals};

fn date(year: i32, month: u32, day: u32) -> CalendarDate {
    CalendarDate::from_ymd(year, month, day).unwrap()
}

fn amount(units: i64) -> Amount {
    Amount::from_units(units).unwrap()
}

fn external(kind: TransactionKind, units: i64, on: CalendarDate) -> ExternalRecord {
    ExternalRecord {
        timestamp: Timestamp { date: on, hour: 10, minute: 30, second: 0 },
        asset: Asset::Btc,
        kind,
        raw_magnitude: amount(units),
        description: "coffee".to_string(),
        reference: "ref".to_string(),
    }
}

fn ledger(units: i64, on: CalendarDate) -> LedgerRecord {
    LedgerRecord {
        date: on,
        description: "posting".to_string(),
        asset: Asset::Btc,
        amount: amount(units),
    }
}

fn policy(min_days: i64, max_days: i64, stop: bool) -> Policy {
    Policy { window: Window { min_days, max_days }, stop_on_first_unmatched: stop }
}

#[test]
fn first_available_record_in_window_is_matched() {
    let externals = vec![external(TransactionKind::Received, 100_000, date(2024, 1, 10))];
    let mut pool = LedgerPool::new(vec![
        ledger(100_000, date(2024, 1, 9)),
        ledger(100_000, date(2024, 2, 1)),
    ]);
    let run = reconcile(&externals, &mut pool, policy(-2, 14, true));
    assert_eq!(run.outcomes, vec![MatchOutcome::Matched { external: 0, slot: 0 }]);
    assert_eq!(run.processed, 1);
    assert!(!run.halted);
    assert_eq!(run.verdict(), Ok(()));
    assert!(!pool.is_available(0));
    assert!(pool.is_available(1));
    assert_eq!(pool.unaccounted(), vec![1]);
}

#[test]
fn record_outside_window_is_a_mismatch_then_unmatched() {
    let externals = vec![external(TransactionKind::Received, 100_000, date(2024, 1, 10))];
    let mut pool = LedgerPool::new(vec![ledger(100_000, date(2024, 3, 1))]);
    let run = reconcile(&externals, &mut pool, policy(-2, 14, true));
    assert_eq!(
        run.outcomes,
        vec![
            MatchOutcome::DateMismatch { external: 0, slot: 0, day_gap: -51 },
            MatchOutcome::Unmatched { external: 0 },
        ]
    );
    assert!(run.halted);
    assert_eq!(run.verdict(), Err(ReconcileError::Unmatched { external: 0 }));
    assert!(pool.is_available(0));
}

#[test]
fn ledger_record_long_before_is_a_mismatch_with_positive_gap() {
    let externals = vec![external(TransactionKind::Received, 100_000, date(2024, 3, 1))];
    let mut pool = LedgerPool::new(vec![ledger(100_000, date(2024, 1, 11))]);
    let run = reconcile(&externals, &mut pool, policy(-2, 14, true));
    assert_eq!(
        run.outcomes,
        vec![
            MatchOutcome::DateMismatch { external: 0, slot: 0, day_gap: 50 },
            MatchOutcome::Unmatched { external: 0 },
        ]
    );
}

#[test]
fn zero_amount_is_skipped() {
    let externals = vec![
        external(TransactionKind::Received, 250, date(2024, 1, 10)),
        external(TransactionKind::Spent, 0, date(2024, 1, 10)),
    ];
    let mut pool = LedgerPool::new(vec![ledger(0, date(2024, 1, 10)), ledger(250, date(2024, 1, 10))]);
    let run = reconcile(&externals, &mut pool, policy(-2, 14, true));
    assert_eq!(
        run.outcomes,
        vec![
            MatchOutcome::Matched { external: 0, slot: 1 },
            MatchOutcome::ZeroAmount { external: 1 },
        ]
    );
    assert!(pool.is_available(0));
    let totals = running_totals(&externals);
    assert_eq!(totals[0], totals[1]);
    assert_eq!(totals[1], Totals { total: 250, inflow: 250, outflow: 0 });
}

#[test]
fn amounts_one_unit_apart_never_match() {
    let externals = vec![external(TransactionKind::Received, 100_000, date(2024, 1, 10))];
    let mut pool = LedgerPool::new(vec![
        ledger(100_001, date(2024, 1, 10)),
        ledger(99_999, date(2024, 1, 10)),
        ledger(-100_000, date(2024, 1, 10)),
    ]);
    let run = reconcile(&externals, &mut pool, policy(-2, 14, false));
    assert_eq!(run.outcomes, vec![MatchOutcome::Unmatched { external: 0 }]);
    assert_eq!(pool.unaccounted(), vec![0, 1, 2]);
}

#[test]
fn outbound_kind_matches_negative_ledger_amount() {
    let externals = vec![external(TransactionKind::Spent, 100_000, date(2024, 1, 10))];
    let mut pool = LedgerPool::new(vec![
        ledger(100_000, date(2024, 1, 10)),
        ledger(-100_000, date(2024, 1, 10)),
    ]);
    let run = reconcile(&externals, &mut pool, policy(-2, 14, true));
    assert_eq!(run.outcomes, vec![MatchOutcome::Matched { external: 0, slot: 1 }]);
}

#[test]
fn window_bounds_are_inclusive() {
    let on = date(2024, 1, 10);
    for (ledger_day, expected_gap, accepted) in [
        (date(2024, 1, 12), -2i64, true),
        (date(2024, 1, 13), -3, false),
        (date(2023, 12, 27), 14, true),
        (date(2023, 12, 26), 15, false),
    ] {
        let externals = vec![external(TransactionKind::Received, 5, on)];
        let mut pool = LedgerPool::new(vec![ledger(5, ledger_day)]);
        let run = reconcile(&externals, &mut pool, policy(-2, 14, true));
        if accepted {
            assert_eq!(run.outcomes, vec![MatchOutcome::Matched { external: 0, slot: 0 }]);
        } else {
            assert_eq!(
                run.outcomes,
                vec![
                    MatchOutcome::DateMismatch { external: 0, slot: 0, day_gap: expected_gap },
                    MatchOutcome::Unmatched { external: 0 },
                ]
            );
        }
    }
}

#[test]
fn window_accepts_exactly_its_range() {
    let window = Window { min_days: -14, max_days: 14 };
    assert!(window.accepts(-14));
    assert!(window.accepts(14));
    assert!(window.accepts(0));
    assert!(!window.accepts(-15));
    assert!(!window.accepts(15));
}

#[test]
fn a_ledger_record_is_used_once() {
    let externals = vec![
        external(TransactionKind::Received, 7, date(2024, 1, 10)),
        external(TransactionKind::Received, 7, date(2024, 1, 11)),
        external(TransactionKind::Received, 7, date(2024, 1, 12)),
    ];
    let mut pool = LedgerPool::new(vec![ledger(7, date(2024, 1, 10)), ledger(7, date(2024, 1, 11))]);
    let run = reconcile(&externals, &mut pool, policy(-2, 14, false));
    assert_eq!(
        run.outcomes,
        vec![
            MatchOutcome::Matched { external: 0, slot: 0 },
            MatchOutcome::Matched { external: 1, slot: 1 },
            MatchOutcome::Unmatched { external: 2 },
        ]
    );
    assert_eq!(run.processed, 3);
    assert!(!run.halted);
    assert_eq!(run.verdict(), Err(ReconcileError::Unmatched { external: 2 }));
    assert!(pool.unaccounted().is_empty());
}

#[test]
fn matched_and_unaccounted_add_up_to_the_pool() {
    let externals = vec![
        external(TransactionKind::Received, 7, date(2024, 1, 10)),
        external(TransactionKind::Sent, 9, date(2024, 1, 11)),
        external(TransactionKind::Received, 0, date(2024, 1, 12)),
    ];
    let mut pool = LedgerPool::new(vec![
        ledger(1, date(2024, 1, 10)),
        ledger(-9, date(2024, 1, 11)),
        ledger(7, date(2024, 1, 9)),
        ledger(7, date(2024, 1, 9)),
    ]);
    let size = pool.len();
    let run = reconcile(&externals, &mut pool, policy(-2, 14, true));
    let matched: Vec<usize> = run.outcomes.iter().filter_map(|o| match o {
        MatchOutcome::Matched { slot, .. } => Some(*slot),
        _ => None,
    }).collect();
    assert_eq!(matched, vec![2, 1]);
    let unaccounted = pool.unaccounted();
    assert_eq!(unaccounted, vec![0, 3]);
    assert_eq!(matched.len() + unaccounted.len(), size);
    for slot in 0..size {
        let in_matched = matched.iter().filter(|s| **s == slot).count();
        let in_unaccounted = unaccounted.iter().filter(|s| **s == slot).count();
        assert_eq!(in_matched + in_unaccounted, 1);
    }
}

#[test]
fn stop_mode_ends_at_the_first_unmatched_record() {
    let externals = vec![
        external(TransactionKind::Received, 7, date(2024, 1, 10)),
        external(TransactionKind::Received, 8, date(2024, 1, 11)),
        external(TransactionKind::Received, 9, date(2024, 1, 12)),
    ];
    let records = || vec![ledger(7, date(2024, 1, 10)), ledger(9, date(2024, 1, 12))];
    let mut pool = LedgerPool::new(records());
    let stopped = reconcile(&externals, &mut pool, policy(-2, 14, true));
    assert_eq!(
        stopped.outcomes,
        vec![
            MatchOutcome::Matched { external: 0, slot: 0 },
            MatchOutcome::Unmatched { external: 1 },
        ]
    );
    assert_eq!(stopped.processed, 2);
    assert!(stopped.halted);
    assert_eq!(pool.unaccounted(), vec![1]);

    let mut pool = LedgerPool::new(records());
    let full = reconcile(&externals, &mut pool, policy(-2, 14, false));
    assert_eq!(
        full.outcomes,
        vec![
            MatchOutcome::Matched { external: 0, slot: 0 },
            MatchOutcome::Unmatched { external: 1 },
            MatchOutcome::Matched { external: 2, slot: 1 },
        ]
    );
    assert_eq!(full.processed, 3);
    assert!(!full.halted);
    assert_eq!(full.verdict(), Err(ReconcileError::Unmatched { external: 1 }));
}

#[test]
fn mismatches_are_reported_before_a_later_match() {
    let externals = vec![external(TransactionKind::Received, 7, date(2024, 1, 10))];
    let mut pool = LedgerPool::new(vec![
        ledger(7, date(2023, 1, 10)),
        ledger(8, date(2024, 1, 10)),
        ledger(7, date(2024, 1, 10)),
        ledger(7, date(2022, 1, 10)),
    ]);
    let run = reconcile(&externals, &mut pool, policy(-14, 14, true));
    assert_eq!(
        run.outcomes,
        vec![
            MatchOutcome::DateMismatch { external: 0, slot: 0, day_gap: 365 },
            MatchOutcome::Matched { external: 0, slot: 2 },
        ]
    );
    assert_eq!(pool.unaccounted(), vec![0, 1, 3]);
}

#[test]
fn signed_amount_follows_the_kind() {
    let on = date(2024, 1, 10);
    for kind in [
        TransactionKind::Received,
        TransactionKind::CryptoDeposit,
        TransactionKind::CardRefund,
    ] {
        assert!(kind.is_inbound());
        assert_eq!(external(kind, 123, on).signed_amount().units(), 123);
    }
    for kind in [
        TransactionKind::Spent,
        TransactionKind::Sent,
        TransactionKind::Sell,
        TransactionKind::BankWithdrawal,
        TransactionKind::CardPurchase,
    ] {
        assert!(!kind.is_inbound());
        assert_eq!(external(kind, 123, on).signed_amount().units(), -123);
    }
}

#[test]
fn running_totals_are_prefix_sums() {
    let on = date(2024, 1, 10);
    let externals = vec![
        external(TransactionKind::Received, 500, on),
        external(TransactionKind::Spent, 200, on),
        external(TransactionKind::Spent, 0, on),
        external(TransactionKind::CardRefund, 50, on),
        external(TransactionKind::Sent, 1_000, on),
    ];
    let totals = running_totals(&externals);
    assert_eq!(
        totals,
        vec![
            Totals { total: 500, inflow: 500, outflow: 0 },
            Totals { total: 300, inflow: 500, outflow: -200 },
            Totals { total: 300, inflow: 500, outflow: -200 },
            Totals { total: 350, inflow: 550, outflow: -200 },
            Totals { total: -650, inflow: 550, outflow: -1_200 },
        ]
    );
}

#[test]
fn totals_absorb_up_to_the_limit_of_the_accumulator() {
    let start = Totals { total: i128::MAX - 5, inflow: 0, outflow: 0 };
    assert_eq!(
        start.absorb(amount(5)),
        Some(Totals { total: i128::MAX, inflow: 5, outflow: 0 })
    );
    assert_eq!(start.absorb(amount(6)), None);
    assert_eq!(
        Totals::zero().absorb(amount(-3)),
        Some(Totals { total: -3, inflow: 0, outflow: -3 })
    );
}
