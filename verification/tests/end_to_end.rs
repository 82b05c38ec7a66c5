use wayex_ledger::ledger::{
    extract_ledger, EntryPosting, LedgerEntry, LedgerFault, LedgerIntegrityError, PostedAmount,
    TRACKED_ACCOUNT,
};
use wayex_ledger::reconcile::{LedgerPool, MatchOutcome, Policy, ReconcileError, Window};
use wayex_ledger::record::{normalize, Asset, RawRow};
use wayex_ledger::report::report;

const EXPORT: &str = "\
Date/Time,Type,Asset,Amount AUD,Amount Crypto,Details,Reference
\"Fri, 12 Jan 2024, 07:45 pm\",Spent,BTC,30.00,0.00040000,Bookshop,r3
\"Thu, 11 Jan 2024, 09:00 am\",Bank Withdrawal (BSB),AUD,100.00,,To bank,r2
\"Wed, 10 Jan 2024, 10:30 am\",Received,BTC,,0.00100000,From a friend,r1
";

const LEDGER: &str = "\
2024-01-01 open Assets:Cash-On-Hand:CryptoSpend:BTC

2024-01-09 * \"From a friend\"
  Assets:Cash-On-Hand:CryptoSpend:BTC   0.00100000 BTC
  Income:Gifts

2024-01-11 * \"To bank\"
  Assets:Bank   100.00 AUD
  Assets:Exchange

2024-01-12 * \"Bookshop\"
  Expenses:Books   30.00 AUD
  Assets:Cash-On-Hand:CryptoSpend:BTC   -0.0004 BTC

2024-02-01 * \"Dust\"
  Assets:Cash-On-Hand:CryptoSpend:BTC   0.00000005 BTC
  Income:Gifts
";

fn rows_of(export: &str) -> Vec<RawRow> {
    let mut reader = csv::Reader::from_reader(export.as_bytes());
    let headers = reader.headers().unwrap().clone();
    let column = |name: &str| headers.iter().position(|h| h == name).unwrap();
    let (time, kind, asset, amount, details, reference) = (
        column("Date/Time"),
        column("Type"),
        column("Asset"),
        column("Amount Crypto"),
        column("Details"),
        column("Reference"),
    );
    reader
        .records()
        .map(|record| {
            let record = record.unwrap();
            RawRow {
                timestamp: record[time].to_string(),
                kind: record[kind].to_string(),
                asset: record[asset].to_string(),
                amount: Some(record[amount].to_string()).filter(|text| !text.is_empty()),
                description: record[details].to_string(),
                reference: record[reference].to_string(),
            }
        })
        .collect()
}

fn entries_of(ledger: &str) -> Vec<LedgerEntry> {
    let file = beancount_parser::parse::<rust_decimal::Decimal>(ledger).unwrap();
    file.directives
        .into_iter()
        .filter_map(|directive| {
            let beancount_parser::DirectiveContent::Transaction(transaction) = directive.content
            else {
                return None;
            };
            Some(LedgerEntry {
                year: directive.date.year,
                month: directive.date.month,
                day: directive.date.day,
                narration: transaction.narration,
                postings: transaction
                    .postings
                    .into_iter()
                    .map(|posting| EntryPosting {
                        account: posting.account.as_str().to_string(),
                        amount: posting.amount.map(|amount| PostedAmount {
                            mantissa: amount.value.mantissa(),
                            scale: amount.value.scale(),
                            currency: amount.currency.as_str().to_string(),
                        }),
                    })
                    .collect(),
            })
        })
        .collect()
}

#[test]
fn an_export_is_reconciled_with_a_ledger() {
    let externals = normalize(&rows_of(EXPORT), Asset::Btc).unwrap();
    assert_eq!(externals.len(), 2);
    assert_eq!(externals[0].description, "From a friend");
    assert_eq!(externals[1].description, "Bookshop");

    let entries = entries_of(LEDGER);
    assert_eq!(entries.len(), 4);
    let records = extract_ledger(&entries, TRACKED_ACCOUNT, Asset::Btc).unwrap();
    assert_eq!(records.len(), 3);

    let mut pool = LedgerPool::new(records);
    let policy = Policy { window: Window::narrow(), stop_on_first_unmatched: true };
    let done = report(&externals, &mut pool, policy);
    assert_eq!(
        done.reconciliation.outcomes,
        vec![
            MatchOutcome::Matched { external: 0, slot: 0 },
            MatchOutcome::Matched { external: 1, slot: 1 },
        ]
    );
    assert_eq!(done.reconciliation.verdict(), Ok(()));
    assert_eq!(
        done.trace,
        vec![
            format!("2024-01-10 10:30:00 {:40} 0.00100000 0.00100000", "From a friend"),
            format!("2024-01-09          {:40} 0.00100000", "From a friend"),
            String::new(),
            format!("2024-01-12 19:45:00 {:40} -0.00040000 0.00060000", "Bookshop"),
            format!("2024-01-12          {:40} -0.00040000", "Bookshop"),
            String::new(),
        ]
    );
    assert_eq!(
        done.summary,
        vec![
            "Unaccounted ledger records:".to_string(),
            format!("{:24} {:40} 0.00000005", "2024-02-01", "Dust"),
            String::new(),
            "spent -0.00040000".to_string(),
            "paid 0.00100000".to_string(),
            "total 0.00060000".to_string(),
        ]
    );
}

#[test]
fn a_missing_ledger_entry_fails_the_run() {
    let externals = normalize(&rows_of(EXPORT), Asset::Btc).unwrap();
    let entries: Vec<LedgerEntry> = entries_of(LEDGER).into_iter().skip(2).collect();
    let records = extract_ledger(&entries, TRACKED_ACCOUNT, Asset::Btc).unwrap();
    let mut pool = LedgerPool::new(records);
    let policy = Policy { window: Window::narrow(), stop_on_first_unmatched: true };
    let done = report(&externals, &mut pool, policy);
    assert_eq!(done.reconciliation.outcomes, vec![MatchOutcome::Unmatched { external: 0 }]);
    assert_eq!(
        done.reconciliation.verdict(),
        Err(ReconcileError::Unmatched { external: 0 })
    );
    assert_eq!(done.reconciliation.processed, 1);
    assert_eq!(pool.unaccounted(), vec![0, 1]);
}

#[test]
fn a_posting_in_another_currency_breaks_the_ledger() {
    let ledger = "\
2024-01-09 * \"Fine\"
  Assets:Cash-On-Hand:CryptoSpend:BTC   1 BTC
  Income:Gifts

2024-01-10 * \"Wrong\"
  Assets:Cash-On-Hand:CryptoSpend:BTC   1 AUD
  Income:Gifts

2024-01-11 *
  Assets:Cash-On-Hand:CryptoSpend:BTC   1 BTC
  Income:Gifts
";
    assert_eq!(
        extract_ledger(&entries_of(ledger), TRACKED_ACCOUNT, Asset::Btc).unwrap_err(),
        LedgerIntegrityError { entry: 1, fault: LedgerFault::WrongCurrency }
    );
}
