//! The exchange's side: raw rows, and the records they are normalised into.

use vstd::prelude::*;
use crate::amount::units_of_text;
use crate::amount::Amount;
use crate::calendar::clock_reading;
use crate::calendar::day_number;
use crate::calendar::Timestamp;
use crate::calendar::CLOCK_FORMAT;
use crate::text::same_text;

verus! {

/// The assets that the exchange reports.
#[derive(Clone, Copy, Debug, PartialEq, Eq, Structural)]
pub enum Asset {
    Aud,
    Btc,
    Xrp,
    Bch,
}

/// The asset that a code of the exchange names.
pub open spec fn asset_of_code(code: Seq<char>) -> Option<Asset> {
    if code == "AUD"@ {
        Some(Asset::Aud)
    } else if code == "BTC"@ {
        Some(Asset::Btc)
    } else if code == "XRP"@ {
        Some(Asset::Xrp)
    } else if code == "BCH"@ {
        Some(Asset::Bch)
    } else {
        None
    }
}

impl Asset {
    /// The code under which the exchange and the ledger name the asset.
    pub open spec fn code_text(self) -> Seq<char> {
        match self {
            Asset::Aud => "AUD"@,
            Asset::Btc => "BTC"@,
            Asset::Xrp => "XRP"@,
            Asset::Bch => "BCH"@,
        }
    }

    /// The code under which the exchange and the ledger name the asset.
    pub fn code(self) -> (r: &'static str)
        ensures
            r@ == self.code_text(),
    {
        match self {
            Asset::Aud => "AUD",
            Asset::Btc => "BTC",
            Asset::Xrp => "XRP",
            Asset::Bch => "BCH",
        }
    }

    /// The asset that a code names; `None` for an unknown code.
    pub fn from_code(code: &str) -> (r: Option<Asset>)
        ensures
            r == asset_of_code(code@),
    {
        if same_text(code, "AUD") {
            Some(Asset::Aud)
        } else if same_text(code, "BTC") {
            Some(Asset::Btc)
        } else if same_text(code, "XRP") {
            Some(Asset::Xrp)
        } else if same_text(code, "BCH") {
            Some(Asset::Bch)
        } else {
            None
        }
    }
}

/// The transaction kind that a label of the exchange names.
pub open spec fn kind_of_label(label: Seq<char>) -> Option<TransactionKind> {
    if label == "Received"@ {
        Some(TransactionKind::Received)
    } else if label == "Spent"@ {
        Some(TransactionKind::Spent)
    } else if label == "Sent"@ {
        Some(TransactionKind::Sent)
    } else if label == "Sell"@ {
        Some(TransactionKind::Sell)
    } else if label == "Bank Withdrawal (BSB)"@ {
        Some(TransactionKind::BankWithdrawal)
    } else if label == "Card (Purchase)"@ {
        Some(TransactionKind::CardPurchase)
    } else if label == "Card (Refund)"@ {
        Some(TransactionKind::CardRefund)
    } else if label == "Crypto Deposit"@ {
        Some(TransactionKind::CryptoDeposit)
    } else {
        None
    }
}

/// What kind of movement a row of the exchange reports.
#[derive(Clone, Copy, Debug, PartialEq, Eq, Structural)]
pub enum TransactionKind {
    Received,
    Spent,
    Sent,
    Sell,
    BankWithdrawal,
    CardPurchase,
    CardRefund,
    CryptoDeposit,
}

impl TransactionKind {
    /// Whether the kind brings the asset in. Every other kind takes it out.
    pub open spec fn inbound(self) -> bool {
        self is Received || self is CryptoDeposit || self is CardRefund
    }

    /// The kind that a label names; `None` for an unknown label.
    pub fn from_label(label: &str) -> (r: Option<TransactionKind>)
        ensures
            r == kind_of_label(label@),
    {
        if same_text(label, "Received") {
            Some(TransactionKind::Received)
        } else if same_text(label, "Spent") {
            Some(TransactionKind::Spent)
        } else if same_text(label, "Sent") {
            Some(TransactionKind::Sent)
        } else if same_text(label, "Sell") {
            Some(TransactionKind::Sell)
        } else if same_text(label, "Bank Withdrawal (BSB)") {
            Some(TransactionKind::BankWithdrawal)
        } else if same_text(label, "Card (Purchase)") {
            Some(TransactionKind::CardPurchase)
        } else if same_text(label, "Card (Refund)") {
            Some(TransactionKind::CardRefund)
        } else if same_text(label, "Crypto Deposit") {
            Some(TransactionKind::CryptoDeposit)
        } else {
            None
        }
    }

    #[verifier::when_used_as_spec(inbound)]
    /// Whether the kind brings the asset in.
    pub fn is_inbound(self) -> (r: bool)
        ensures
            r == self.inbound(),
    {
        match self {
            TransactionKind::Received => true,
            TransactionKind::CryptoDeposit => true,
            TransactionKind::CardRefund => true,
            TransactionKind::Spent => false,
            TransactionKind::BankWithdrawal => false,
            TransactionKind::CardPurchase => false,
            TransactionKind::Sell => false,
            TransactionKind::Sent => false,
        }
    }
}

/// One transaction as the exchange reports it, normalised.
#[derive(Debug)]
pub struct ExternalRecord {
    pub timestamp: Timestamp,
    pub asset: Asset,
    pub kind: TransactionKind,
    /// The amount as the exchange prints it, before the kind's sign.
    pub raw_magnitude: Amount,
    pub description: String,
    pub reference: String,
}

impl ExternalRecord {
    /// The signed count of units that the record moves: the magnitude for
    /// an inbound kind, its negation for an outbound one.
    pub open spec fn signed_units(self) -> int {
        if self.kind.inbound() {
            self.raw_magnitude@
        } else {
            -self.raw_magnitude@
        }
    }

    /// The amount with the sign that the kind gives it.
    pub fn signed_amount(&self) -> (r: Amount)
        ensures
            r@ == self.signed_units(),
            self.kind.inbound() ==> r@ == self.raw_magnitude@,
            !self.kind.inbound() ==> r@ == -self.raw_magnitude@,
            r.wf(),
    {
        proof {
            use_type_invariant(&self.raw_magnitude);
        }
        if self.kind.is_inbound() {
            self.raw_magnitude
        } else {
            self.raw_magnitude.negated()
        }
    }
}

/// One row of the exchange's export, as texts.
#[derive(Debug)]
pub struct RawRow {
    pub timestamp: String,
    pub kind: String,
    pub asset: String,
    /// The amount in units of the asset, where the row gives one.
    pub amount: Option<String>,
    pub description: String,
    pub reference: String,
}

/// Why a row cannot be read.
#[derive(Clone, Copy, Debug, PartialEq, Eq, Structural)]
pub enum RowFault {
    UnknownTransactionKind,
    UnknownAssetCode,
    UnparseableDecimal,
    UnparseableTimestamp,
}

/// A row that cannot be read: its position in the export, and the field
/// at fault with the reason.
#[derive(Clone, Copy, Debug, PartialEq, Eq, Structural)]
pub struct RecordParseError {
    pub row: usize,
    pub fault: RowFault,
}

/// What becomes of a row.
pub enum RowFate {
    /// The row cannot be read.
    Faulty(RowFault),
    /// The row is of another asset or gives no amount: it is passed over.
    Dropped,
    /// The row becomes an external record.
    Kept,
}

/// Whether a timestamp text of the export names a moment.
pub open spec fn timestamp_readable(text: Seq<char>) -> bool {
    clock_reading(text, CLOCK_FORMAT@) matches Some((year, month, day, _, _, _)) && day_number(
        year,
        month,
        day,
    ) is Some
}

/// What becomes of a row, when rows of asset `target` are wanted. The
/// fields are judged in a fixed
/// order: kind, asset, amount, and, for a row of the wanted asset that
/// gives an amount, the timestamp.
pub open spec fn row_fate(row: RawRow, target: Asset) -> RowFate {
    if kind_of_label(row.kind@) is None {
        RowFate::Faulty(RowFault::UnknownTransactionKind)
    } else if asset_of_code(row.asset@) is None {
        RowFate::Faulty(RowFault::UnknownAssetCode)
    } else if row.amount matches Some(text) && units_of_text(text@) is None {
        RowFate::Faulty(RowFault::UnparseableDecimal)
    } else if asset_of_code(row.asset@) != Some(target) || row.amount is None {
        RowFate::Dropped
    } else if !timestamp_readable(row.timestamp@) {
        RowFate::Faulty(RowFault::UnparseableTimestamp)
    } else {
        RowFate::Kept
    }
}

/// Whether `record` is what the row says, field by field.
pub open spec fn reads_as(row: RawRow, record: ExternalRecord) -> bool {
    &&& Timestamp::of_reading(
        clock_reading(row.timestamp@, CLOCK_FORMAT@),
        Some(record.timestamp),
    )
    &&& kind_of_label(row.kind@) == Some(record.kind)
    &&& asset_of_code(row.asset@) == Some(record.asset)
    &&& row.amount matches Some(text) && units_of_text(text@) == Some(record.raw_magnitude@)
    &&& record.raw_magnitude.wf()
    &&& record.description == row.description
    &&& record.reference == row.reference
}

/// The outcome for a row, given what was read in its fields.
pub open spec fn assembled(
    row: RawRow,
    target: Asset,
    kind: Option<TransactionKind>,
    asset: Option<Asset>,
    amount: Option<Amount>,
    timestamp: Option<Timestamp>,
) -> Result<Option<ExternalRecord>, RowFault> {
    if kind is None {
        Err(RowFault::UnknownTransactionKind)
    } else if asset is None {
        Err(RowFault::UnknownAssetCode)
    } else if row.amount is Some && amount is None {
        Err(RowFault::UnparseableDecimal)
    } else if asset != Some(target) || row.amount is None {
        Ok(None)
    } else if timestamp is None {
        Err(RowFault::UnparseableTimestamp)
    } else {
        Ok(
            Some(
                ExternalRecord {
                    timestamp: timestamp->0,
                    asset: asset->0,
                    kind: kind->0,
                    raw_magnitude: amount->0,
                    description: row.description,
                    reference: row.reference,
                },
            ),
        )
    }
}

/// Puts a record together from a row and from what was read in its
/// fields: `kind` and `asset` as the tables give them, `amount` as the
/// decimal reader gives it for the amount's text (`None` where the row has
/// no amount or the reader refuses it), `timestamp` as the clock reader
/// gives it.
pub fn assemble(
    row: &RawRow,
    target: Asset,
    kind: Option<TransactionKind>,
    asset: Option<Asset>,
    amount: Option<Amount>,
    timestamp: Option<Timestamp>,
) -> (r: Result<Option<ExternalRecord>, RowFault>)
    ensures
        r == assembled(*row, target, kind, asset, amount, timestamp),
{
    let kind = match kind {
        Some(kind) => kind,
        None => { return Err(RowFault::UnknownTransactionKind); },
    };
    let asset = match asset {
        Some(asset) => asset,
        None => { return Err(RowFault::UnknownAssetCode); },
    };
    if row.amount.is_some() && amount.is_none() {
        return Err(RowFault::UnparseableDecimal);
    }
    if asset != target || row.amount.is_none() {
        return Ok(None);
    }
    let raw_magnitude = amount.unwrap();
    let timestamp = match timestamp {
        Some(timestamp) => timestamp,
        None => { return Err(RowFault::UnparseableTimestamp); },
    };
    Ok(
        Some(
            ExternalRecord {
                timestamp,
                asset,
                kind,
                raw_magnitude,
                description: row.description.clone(),
                reference: row.reference.clone(),
            },
        ),
    )
}

/// Reads one row: the record it becomes, `None` where it is passed over,
/// or the fault that stops it.
pub fn normalize_row(row: &RawRow, target: Asset) -> (r: Result<
    Option<ExternalRecord>,
    RowFault,
>)
    ensures
        match row_fate(*row, target) {
            RowFate::Faulty(fault) => r == Err::<Option<ExternalRecord>, RowFault>(fault),
            RowFate::Dropped => r == Ok::<Option<ExternalRecord>, RowFault>(None),
            RowFate::Kept => r matches Ok(Some(record)) && reads_as(*row, record),
        },
{
    let kind = TransactionKind::from_label(row.kind.as_str());
    let asset = Asset::from_code(row.asset.as_str());
    let amount = match &row.amount {
        Some(text) => Amount::parse(text.as_str()),
        None => None,
    };
    let timestamp = Timestamp::parse(row.timestamp.as_str());
    assemble(row, target, kind, asset, amount, timestamp)
}

/// The first row before `end` that cannot be read, with its fault.
pub open spec fn first_fault(
    rows: Seq<RawRow>,
    target: Asset,
    end: int,
) -> Option<RecordParseError>
    decreases end,
{
    if end <= 0 {
        None
    } else {
        match first_fault(rows, target, end - 1) {
            Some(error) => Some(error),
            None => match row_fate(rows[end - 1], target) {
                RowFate::Faulty(fault) => Some(
                    RecordParseError { row: (end - 1) as usize, fault },
                ),
                _ => None,
            },
        }
    }
}

/// The positions of the rows before `end` that become records, the last
/// row first: the export lists the newest transaction first, and the
/// records are wanted oldest first.
pub open spec fn kept_rows(rows: Seq<RawRow>, target: Asset, end: int) -> Seq<int>
    decreases end,
{
    if end <= 0 {
        Seq::empty()
    } else if row_fate(rows[end - 1], target) is Kept {
        seq![end - 1] + kept_rows(rows, target, end - 1)
    } else {
        kept_rows(rows, target, end - 1)
    }
}

/// The items of a vector in the opposite order.
fn reversed(items: Vec<ExternalRecord>) -> (r: Vec<ExternalRecord>)
    ensures
        r@.len() == items@.len(),
        forall|j: int| 0 <= j < r@.len() ==> #[trigger] r@[j] == items@[items@.len() - 1 - j],
{
    let mut items = items;
    let ghost all = items@;
    let mut r: Vec<ExternalRecord> = Vec::new();
    while items.len() > 0
        invariant
            items@ == all.take(items@.len() as int),
            r@.len() + items@.len() == all.len(),
            forall|j: int| 0 <= j < r@.len() ==> #[trigger] r@[j] == all[all.len() - 1 - j],
        decreases items@.len(),
    {
        let item = items.pop().unwrap();
        r.push(item);
    }
    r
}

/// Normalises an export: reads every row, keeps those of asset `target`
/// that give an amount, and hands them back in the opposite order, oldest
/// first. The first row that cannot be read stops the whole export.
pub fn normalize(rows: &Vec<RawRow>, target: Asset) -> (r: Result<
    Vec<ExternalRecord>,
    RecordParseError,
>)
    ensures
        match first_fault(rows@, target, rows@.len() as int) {
            Some(error) => r == Err::<Vec<ExternalRecord>, RecordParseError>(error),
            None => {
                let kept = kept_rows(rows@, target, rows@.len() as int);
                &&& r matches Ok(records)
                &&& records@.len() == kept.len()
                &&& forall|j: int|
                    0 <= j < kept.len() ==> reads_as(
                        rows@[kept[j]],
                        #[trigger] records@[j],
                    )
            },
        },
{
    let mut found: Vec<ExternalRecord> = Vec::new();
    let mut i: usize = 0;
    while i < rows.len()
        invariant
            0 <= i <= rows@.len(),
            first_fault(rows@, target, i as int) is None,
            found@.len() == kept_rows(rows@, target, i as int).len(),
            forall|j: int|
                0 <= j < found@.len() ==> reads_as(
                    rows@[kept_rows(rows@, target, i as int)[found@.len() - 1 - j]],
                    #[trigger] found@[j],
                ),
        decreases rows@.len() - i,
    {
        match normalize_row(&rows[i], target) {
            Err(fault) => {
                proof {
                    lemma_first_fault_stays(rows@, target, i + 1, rows@.len() as int);
                }
                return Err(RecordParseError { row: i, fault });
            },
            Ok(None) => {},
            Ok(Some(record)) => {
                found.push(record);
            },
        }
        i = i + 1;
    }
    Ok(reversed(found))
}

/// A fault found among the first rows is the first fault of the export.
pub proof fn lemma_first_fault_stays(
    rows: Seq<RawRow>,
    target: Asset,
    end: int,
    later: int,
)
    requires
        end <= later,
        first_fault(rows, target, end) is Some,
    ensures
        first_fault(rows, target, later) == first_fault(rows, target, end),
    decreases later - end,
{
    if end < later {
        lemma_first_fault_stays(rows, target, end, later - 1);
    }
}

} // verus!
