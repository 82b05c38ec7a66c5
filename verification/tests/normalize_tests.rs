use wayex_ledger::record::{
    assemble, normalize, normalize_row, Asset, RawRow, RecordParseError, RowFault,
    TransactionKind,
};

fn row(time: &str, kind: &str, asset: &str, amount: Option<&str>, details: &str) -> RawRow {
    RawRow {
        timestamp: time.to_string(),
        kind: kind.to_string(),
        asset: asset.to_string(),
        amount: amount.map(|a| a.to_string()),
        description: details.to_string(),
        reference: format!("ref-{details}"),
    }
}

const JAN_10: &str = "Wed, 10 Jan 2024, 10:30 am";
const JAN_11: &str = "Thu, 11 Jan 2024, 09:00 pm";
const JAN_12: &str = "Fri, 12 Jan 2024, 12:15 pm";

#[test]
fn labels_name_the_kinds() {
    let table = [
        ("Received", TransactionKind::Received),
        ("Spent", TransactionKind::Spent),
        ("Sent", TransactionKind::Sent),
        ("Sell", TransactionKind::Sell),
        ("Bank Withdrawal (BSB)", TransactionKind::BankWithdrawal),
        ("Card (Purchase)", TransactionKind::CardPurchase),
        ("Card (Refund)", TransactionKind::CardRefund),
        ("Crypto Deposit", TransactionKind::CryptoDeposit),
    ];
    for (label, kind) in table {
        assert_eq!(TransactionKind::from_label(label), Some(kind));
    }
    assert_eq!(TransactionKind::from_label("received"), None);
    assert_eq!(TransactionKind::from_label(""), None);
    assert_eq!(TransactionKind::from_label("Sale"), None);
}

#[test]
fn codes_name_the_assets() {
    for asset in [Asset::Aud, Asset::Btc, Asset::Xrp, Asset::Bch] {
        assert_eq!(Asset::from_code(asset.code()), Some(asset));
    }
    assert_eq!(Asset::Btc.code(), "BTC");
    assert_eq!(Asset::from_code("btc"), None);
    assert_eq!(Asset::from_code("ETH"), None);
}

#[test]
fn a_row_becomes_a_record() {
    let record = normalize_row(
        &row(JAN_10, "Spent", "BTC", Some("0.00100000"), "coffee"),
        Asset::Btc,
    )
    .unwrap()
    .unwrap();
    assert_eq!(record.kind, TransactionKind::Spent);
    assert_eq!(record.asset, Asset::Btc);
    assert_eq!(record.raw_magnitude.units(), 100_000);
    assert_eq!(record.signed_amount().units(), -100_000);
    assert_eq!(record.timestamp.render(), "2024-01-10 10:30:00");
    assert_eq!(record.description, "coffee");
    assert_eq!(record.reference, "ref-coffee");
}

#[test]
fn rows_are_filtered_and_reversed() {
    let rows = vec![
        row(JAN_12, "Received", "BTC", Some("3"), "newest"),
        row(JAN_12, "Sell", "AUD", Some("10"), "other asset"),
        row(JAN_11, "Spent", "BTC", None, "no amount"),
        row(JAN_11, "Spent", "BTC", Some("2"), "middle"),
        row(JAN_10, "Received", "XRP", None, "other asset, no amount"),
        row(JAN_10, "Crypto Deposit", "BTC", Some("1"), "oldest"),
    ];
    let records = normalize(&rows, Asset::Btc).unwrap();
    let seen: Vec<(&str, i64)> =
        records.iter().map(|r| (r.description.as_str(), r.signed_amount().units())).collect();
    assert_eq!(
        seen,
        vec![("oldest", 100_000_000), ("middle", -200_000_000), ("newest", 300_000_000)]
    );
    let xrp = normalize(&rows, Asset::Xrp).unwrap();
    assert!(xrp.is_empty());
    assert!(normalize(&Vec::new(), Asset::Btc).unwrap().is_empty());
}

#[test]
fn each_fault_is_named() {
    let check = |bad: RawRow, fault: RowFault| {
        assert_eq!(normalize_row(&bad, Asset::Btc).unwrap_err(), fault);
    };
    check(row(JAN_10, "Gift", "BTC", Some("1"), "x"), RowFault::UnknownTransactionKind);
    check(row(JAN_10, "Spent", "DOGE", Some("1"), "x"), RowFault::UnknownAssetCode);
    check(row(JAN_10, "Spent", "BTC", Some("one"), "x"), RowFault::UnparseableDecimal);
    check(row(JAN_10, "Spent", "BTC", Some("0.000000001"), "x"), RowFault::UnparseableDecimal);
    check(row("10/01/2024", "Spent", "BTC", Some("1"), "x"), RowFault::UnparseableTimestamp);
}

#[test]
fn faults_are_judged_in_a_fixed_order() {
    let check = |bad: RawRow, fault: RowFault| {
        assert_eq!(normalize_row(&bad, Asset::Btc).unwrap_err(), fault);
    };
    check(row("bad", "Gift", "DOGE", Some("one"), "x"), RowFault::UnknownTransactionKind);
    check(row("bad", "Spent", "DOGE", Some("one"), "x"), RowFault::UnknownAssetCode);
    check(row("bad", "Spent", "BTC", Some("one"), "x"), RowFault::UnparseableDecimal);
    check(row("bad", "Spent", "AUD", Some("one"), "x"), RowFault::UnparseableDecimal);
    let dropped = |r: RawRow| {
        assert!(normalize_row(&r, Asset::Btc).unwrap().is_none());
    };
    dropped(row("bad", "Spent", "AUD", Some("1"), "x"));
    dropped(row("bad", "Spent", "BTC", None, "x"));
    dropped(row("bad", "Spent", "AUD", None, "x"));
}

#[test]
fn the_first_faulty_row_stops_the_export() {
    let rows = vec![
        row(JAN_12, "Received", "BTC", Some("3"), "fine"),
        row(JAN_11, "Spent", "BTC", Some("two"), "bad amount"),
        row(JAN_10, "Gift", "BTC", Some("1"), "bad kind"),
    ];
    assert_eq!(
        normalize(&rows, Asset::Btc).unwrap_err(),
        RecordParseError { row: 1, fault: RowFault::UnparseableDecimal }
    );
    let rows = vec![
        row("never", "Received", "AUD", Some("3"), "dropped"),
        row("never", "Received", "BTC", Some("3"), "bad time"),
    ];
    assert_eq!(
        normalize(&rows, Asset::Btc).unwrap_err(),
        RecordParseError { row: 1, fault: RowFault::UnparseableTimestamp }
    );
}

#[test]
fn assembling_takes_the_readings_as_given() {
    let source = row(JAN_10, "ignored", "ignored", Some("ignored"), "coffee");
    let amount = wayex_ledger::amount::Amount::from_units(5);
    let stamp = wayex_ledger::calendar::Timestamp::from_reading(Some((2024, 1, 10, 10, 30, 0)));
    let kind = Some(TransactionKind::Sent);
    let built = assemble(&source, Asset::Btc, kind, Some(Asset::Btc), amount, stamp)
        .unwrap()
        .unwrap();
    assert_eq!(built.signed_amount().units(), -5);
    assert_eq!(built.description, "coffee");
    assert_eq!(
        assemble(&source, Asset::Btc, None, None, None, None).unwrap_err(),
        RowFault::UnknownTransactionKind
    );
    assert_eq!(
        assemble(&source, Asset::Btc, kind, None, None, None).unwrap_err(),
        RowFault::UnknownAssetCode
    );
    assert_eq!(
        assemble(&source, Asset::Btc, kind, Some(Asset::Btc), None, stamp).unwrap_err(),
        RowFault::UnparseableDecimal
    );
    assert_eq!(
        assemble(&source, Asset::Btc, kind, Some(Asset::Btc), amount, None).unwrap_err(),
        RowFault::UnparseableTimestamp
    );
    assert!(assemble(&source, Asset::Btc, kind, Some(Asset::Xrp), amount, None)
        .unwrap()
        .is_none());
}
