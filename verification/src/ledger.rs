//! The ledger's side: entries as the ledger text gives them, and the
//! records extracted for the tracked account.

use vstd::prelude::*;
use crate::amount::units_of_decimal;
use crate::amount::Amount;
use crate::calendar::day_number;
use crate::calendar::CalendarDate;
use crate::record::Asset;
use crate::text::same_text;

verus! {

/// The account whose postings are reconciled.
pub const TRACKED_ACCOUNT: &'static str = "Assets:Cash-On-Hand:CryptoSpend:BTC";

/// One posting of the ledger against the tracked account.
#[derive(Debug)]
pub struct LedgerRecord {
    pub date: CalendarDate,
    pub description: String,
    pub asset: Asset,
    pub amount: Amount,
}

/// The amount on a posting line: the decimal number
/// `mantissa / 10^scale`, and the currency it is in.
#[derive(Debug)]
pub struct PostedAmount {
    pub mantissa: i128,
    pub scale: u32,
    pub currency: String,
}

/// A posting line of a transaction entry.
#[derive(Debug)]
pub struct EntryPosting {
    pub account: String,
    pub amount: Option<PostedAmount>,
}

/// A transaction entry of the ledger, as its text gives it. The date is
/// as written; whether the calendar has such a day is not yet known.
#[derive(Debug)]
pub struct LedgerEntry {
    pub year: u16,
    pub month: u8,
    pub day: u8,
    pub narration: Option<String>,
    pub postings: Vec<EntryPosting>,
}

/// How an entry that touches the tracked account breaks what the ledger is
/// expected to keep to.
#[derive(Clone, Copy, Debug, PartialEq, Eq, Structural)]
pub enum LedgerFault {
    /// The entry has no narration.
    MissingNarration,
    /// The posting against the tracked account has no amount.
    MissingAmount,
    /// The posting's amount is in another currency than the tracked asset.
    WrongCurrency,
    /// The calendar has no such day as the entry's date.
    InvalidDate,
    /// The posting's amount is no whole count of hundred-millionths, or out
    /// of range.
    InexactAmount,
}

/// An entry that breaks the ledger's integrity: its position among the
/// entries, and how.
#[derive(Clone, Copy, Debug, PartialEq, Eq, Structural)]
pub struct LedgerIntegrityError {
    pub entry: usize,
    pub fault: LedgerFault,
}

/// What becomes of an entry.
pub enum EntryFate {
    /// The entry touches the tracked account and is malformed.
    Faulty(LedgerFault),
    /// The entry does not touch the tracked account.
    Skipped,
    /// The entry gives a ledger record.
    Kept,
}

/// The first posting before `end` against the account.
pub open spec fn tracked_posting(postings: Seq<EntryPosting>, account: Seq<char>, end: int) -> Option<
    int,
>
    decreases end,
{
    if end <= 0 {
        None
    } else {
        match tracked_posting(postings, account, end - 1) {
            Some(i) => Some(i),
            None => if postings[end - 1].account@ == account {
                Some(end - 1)
            } else {
                None
            },
        }
    }
}

/// What becomes of an entry, when postings against `account` in `asset`
/// are wanted. An entry with no posting against the account is skipped;
/// one with such a posting must have a narration, an amount on the first
/// such posting, in the asset's currency, a date that exists and an amount
/// that is a whole count of units: the first of these that fails is its
/// fault.
pub open spec fn entry_fate(entry: LedgerEntry, account: Seq<char>, asset: Asset) -> EntryFate {
    match tracked_posting(entry.postings@, account, entry.postings@.len() as int) {
        None => EntryFate::Skipped,
        Some(i) => {
            let posting = entry.postings@[i];
            if entry.narration is None {
                EntryFate::Faulty(LedgerFault::MissingNarration)
            } else if posting.amount is None {
                EntryFate::Faulty(LedgerFault::MissingAmount)
            } else if posting.amount->0.currency@ != asset.code_text() {
                EntryFate::Faulty(LedgerFault::WrongCurrency)
            } else if day_number(entry.year as i32, entry.month as u32, entry.day as u32)
                is None {
                EntryFate::Faulty(LedgerFault::InvalidDate)
            } else if units_of_decimal(
                posting.amount->0.mantissa as int,
                posting.amount->0.scale as nat,
            ) is None {
                EntryFate::Faulty(LedgerFault::InexactAmount)
            } else {
                EntryFate::Kept
            }
        },
    }
}

/// Whether `record` is what the entry says of the tracked account.
pub open spec fn extracted_as(
    entry: LedgerEntry,
    account: Seq<char>,
    asset: Asset,
    record: LedgerRecord,
) -> bool {
    &&& tracked_posting(entry.postings@, account, entry.postings@.len() as int) matches Some(i)
    &&& entry.postings@[i].amount matches Some(posted)
    &&& record.date.wf()
    &&& record.date.ymd() == (entry.year as i32, entry.month as u32, entry.day as u32)
    &&& day_number(entry.year as i32, entry.month as u32, entry.day as u32) == Some(
        record.date.day_count(),
    )
    &&& Some(record.description) == entry.narration
    &&& record.asset == asset
    &&& record.amount.wf()
    &&& units_of_decimal(posted.mantissa as int, posted.scale as nat) == Some(record.amount@)
}

/// Finds the first posting of an entry against the account.
pub fn find_posting<'a>(postings: &'a Vec<EntryPosting>, account: &str) -> (r: Option<usize>)
    ensures
        r matches Some(i) ==> i < postings@.len() && tracked_posting(
            postings@,
            account@,
            postings@.len() as int,
        ) == Some(i as int),
        r is None ==> tracked_posting(postings@, account@, postings@.len() as int) is None,
{
    let mut i: usize = 0;
    while i < postings.len()
        invariant
            0 <= i <= postings@.len(),
            tracked_posting(postings@, account@, i as int) is None,
        decreases postings@.len() - i,
    {
        if same_text(postings[i].account.as_str(), account) {
            proof {
                lemma_tracked_posting_stays(postings@, account@, i + 1, postings@.len() as int);
            }
            return Some(i);
        }
        i = i + 1;
    }
    None
}

/// A posting found among the first is the first of them all.
pub proof fn lemma_tracked_posting_stays(
    postings: Seq<EntryPosting>,
    account: Seq<char>,
    end: int,
    later: int,
)
    requires
        end <= later,
        tracked_posting(postings, account, end) is Some,
    ensures
        tracked_posting(postings, account, later) == tracked_posting(postings, account, end),
    decreases later - end,
{
    if end < later {
        lemma_tracked_posting_stays(postings, account, end, later - 1);
    }
}

/// Extracts the ledger record of one entry: the record, `None` where the
/// entry does not touch the account, or the fault of a malformed entry.
pub fn extract_record(entry: &LedgerEntry, account: &str, asset: Asset) -> (r: Result<
    Option<LedgerRecord>,
    LedgerFault,
>)
    ensures
        match entry_fate(*entry, account@, asset) {
            EntryFate::Faulty(fault) => r == Err::<Option<LedgerRecord>, LedgerFault>(fault),
            EntryFate::Skipped => r == Ok::<Option<LedgerRecord>, LedgerFault>(None),
            EntryFate::Kept => r matches Ok(Some(record)) && extracted_as(
                *entry,
                account@,
                asset,
                record,
            ),
        },
{
    let posting = match find_posting(&entry.postings, account) {
        Some(i) => &entry.postings[i],
        None => { return Ok(None); },
    };
    let description = match &entry.narration {
        Some(narration) => narration.clone(),
        None => { return Err(LedgerFault::MissingNarration); },
    };
    let posted = match &posting.amount {
        Some(posted) => posted,
        None => { return Err(LedgerFault::MissingAmount); },
    };
    if !same_text(posted.currency.as_str(), asset.code()) {
        return Err(LedgerFault::WrongCurrency);
    }
    let date = match CalendarDate::from_ymd(entry.year as i32, entry.month as u32, entry.day as u32) {
        Some(date) => date,
        None => { return Err(LedgerFault::InvalidDate); },
    };
    let amount = match Amount::from_decimal_parts(posted.mantissa, posted.scale) {
        Some(amount) => amount,
        None => { return Err(LedgerFault::InexactAmount); },
    };
    Ok(Some(LedgerRecord { date, description, asset, amount }))
}

/// The first entry before `end` that is malformed, with its fault.
pub open spec fn first_ledger_fault(
    entries: Seq<LedgerEntry>,
    account: Seq<char>,
    asset: Asset,
    end: int,
) -> Option<LedgerIntegrityError>
    decreases end,
{
    if end <= 0 {
        None
    } else {
        match first_ledger_fault(entries, account, asset, end - 1) {
            Some(error) => Some(error),
            None => match entry_fate(entries[end - 1], account, asset) {
                EntryFate::Faulty(fault) => Some(
                    LedgerIntegrityError { entry: (end - 1) as usize, fault },
                ),
                _ => None,
            },
        }
    }
}

/// The positions of the entries before `end` that give a record, in
/// ledger order.
pub open spec fn kept_entries(
    entries: Seq<LedgerEntry>,
    account: Seq<char>,
    asset: Asset,
    end: int,
) -> Seq<int>
    decreases end,
{
    if end <= 0 {
        Seq::empty()
    } else if entry_fate(entries[end - 1], account, asset) is Kept {
        kept_entries(entries, account, asset, end - 1).push(end - 1)
    } else {
        kept_entries(entries, account, asset, end - 1)
    }
}

/// A fault found among the first entries is the first fault of the ledger.
pub proof fn lemma_first_ledger_fault_stays(
    entries: Seq<LedgerEntry>,
    account: Seq<char>,
    asset: Asset,
    end: int,
    later: int,
)
    requires
        end <= later,
        first_ledger_fault(entries, account, asset, end) is Some,
    ensures
        first_ledger_fault(entries, account, asset, later) == first_ledger_fault(
            entries,
            account,
            asset,
            end,
        ),
    decreases later - end,
{
    if end < later {
        lemma_first_ledger_fault_stays(entries, account, asset, end, later - 1);
    }
}

/// Extracts the ledger records of the tracked account: one for each entry
/// with a posting against `account`, in ledger order. The first such entry
/// that is malformed stops the extraction.
pub fn extract_ledger(entries: &Vec<LedgerEntry>, account: &str, asset: Asset) -> (r: Result<
    Vec<LedgerRecord>,
    LedgerIntegrityError,
>)
    ensures
        match first_ledger_fault(entries@, account@, asset, entries@.len() as int) {
            Some(error) => r == Err::<Vec<LedgerRecord>, LedgerIntegrityError>(error),
            None => {
                let kept = kept_entries(entries@, account@, asset, entries@.len() as int);
                &&& r matches Ok(records)
                &&& records@.len() == kept.len()
                &&& forall|j: int|
                    0 <= j < kept.len() ==> extracted_as(
                        entries@[kept[j]],
                        account@,
                        asset,
                        #[trigger] records@[j],
                    )
            },
        },
{
    let mut records: Vec<LedgerRecord> = Vec::new();
    let mut i: usize = 0;
    while i < entries.len()
        invariant
            0 <= i <= entries@.len(),
            first_ledger_fault(entries@, account@, asset, i as int) is None,
            records@.len() == kept_entries(entries@, account@, asset, i as int).len(),
            forall|j: int|
                0 <= j < records@.len() ==> extracted_as(
                    entries@[kept_entries(entries@, account@, asset, i as int)[j]],
                    account@,
                    asset,
                    #[trigger] records@[j],
                ),
        decreases entries@.len() - i,
    {
        match extract_record(&entries[i], account, asset) {
            Err(fault) => {
                proof {
                    lemma_first_ledger_fault_stays(
                        entries@,
                        account@,
                        asset,
                        i + 1,
                        entries@.len() as int,
                    );
                }
                return Err(LedgerIntegrityError { entry: i, fault });
            },
            Ok(None) => {},
            Ok(Some(record)) => {
                records.push(record);
            },
        }
        i = i + 1;
    }
    Ok(records)
}

} // verus!
