//! The report of a run: one trace line and more for each external record,
//! the ledger records left unaccounted, and the totals.

use vstd::prelude::*;
use vstd::string::StringExecFns;
use crate::amount::push_units;
use crate::amount::units_text;
use crate::calendar::date_text;
use crate::calendar::CalendarDate;
use crate::ledger::LedgerRecord;
use crate::reconcile::reconcile;
use crate::reconcile::run;
use crate::reconcile::LedgerPool;
use crate::reconcile::MatchOutcome;
use crate::reconcile::Policy;
use crate::reconcile::Reconciliation;
use crate::reconcile::Slot;
use crate::record::ExternalRecord;
use crate::text::integer_text;
use crate::text::padded;
use crate::text::push_integer;
use crate::text::push_padded;
use crate::text::spaces;
use crate::totals::running_totals;
use crate::totals::total_of;
use crate::totals::Totals;

verus! {

/// The width to which descriptions are padded.
pub const DESCRIPTION_WIDTH: usize = 40;

/// The width to which the date of an unaccounted record is padded.
pub const DATE_WIDTH: usize = 24;

/// The texts of a list of lines.
pub open spec fn texts(lines: Seq<String>) -> Seq<Seq<char>> {
    lines.map_values(|line: String| line@)
}

/// The line for an external record: its timestamp, its description, its
/// signed amount and the running total after it.
pub open spec fn record_line(record: ExternalRecord, running: int) -> Seq<char> {
    record.timestamp.text() + seq![' '] + padded(record.description@, DESCRIPTION_WIDTH as nat)
        + seq![' '] + units_text(record.signed_units()) + seq![' '] + units_text(running)
}

/// The line for a ledger record that was matched or passed over: its date,
/// its description and its amount.
pub open spec fn ledger_line(record: LedgerRecord) -> Seq<char> {
    date_text(record.date.ymd()) + spaces(10) + padded(
        record.description@,
        DESCRIPTION_WIDTH as nat,
    ) + seq![' '] + units_text(record.amount@)
}

/// The line that says by how many days a ledger record missed the window.
pub open spec fn mismatch_line(gap: i64, record: LedgerRecord) -> Seq<char> {
    "Date mismatch: "@ + integer_text(gap as int) + seq![' '] + date_text(record.date.ymd())
}

/// The line for a ledger record that no external record accounts for.
pub open spec fn unaccounted_line(record: LedgerRecord) -> Seq<char> {
    padded(date_text(record.date.ymd()), DATE_WIDTH as nat) + seq![' '] + padded(
        record.description@,
        DESCRIPTION_WIDTH as nat,
    ) + seq![' '] + units_text(record.amount@)
}

/// A line that names a total.
pub open spec fn total_line(label: Seq<char>, units: int) -> Seq<char> {
    label + seq![' '] + units_text(units)
}

/// Whether every outcome of a stream names an external record and a slot
/// that exist.
pub open spec fn indexed(outcomes: Seq<MatchOutcome>, externals: int, slots: int) -> bool {
    forall|j: int|
        0 <= j < outcomes.len() ==> {
            &&& (#[trigger] outcomes[j]).named_external() < externals
            &&& outcomes[j].named_slot() matches Some(slot) ==> slot < slots
        }
}

/// Whether the outcome at `j` is the first about its external record.
pub open spec fn opens_record(outcomes: Seq<MatchOutcome>, j: int) -> bool {
    j == 0 || outcomes[j - 1].named_external() != outcomes[j].named_external()
}

/// The lines for the outcome at `j`. The first outcome about an external
/// record is preceded by the record's line. A date mismatch gives the
/// ledger record's line and the mismatch line; a match, the ledger record's
/// line; a failure to match says so; and the last outcome about a record is
/// followed by an empty line.
pub open spec fn outcome_lines(
    externals: Seq<ExternalRecord>,
    pool: Seq<Slot>,
    outcomes: Seq<MatchOutcome>,
    j: int,
) -> Seq<Seq<char>> {
    let external = outcomes[j].named_external() as int;
    let opening = if opens_record(outcomes, j) {
        seq![record_line(externals[external], total_of(externals.take(external + 1)))]
    } else {
        Seq::empty()
    };
    opening + match outcomes[j] {
        MatchOutcome::ZeroAmount { .. } => seq![Seq::empty()],
        MatchOutcome::DateMismatch { slot, day_gap, .. } => seq![
            ledger_line(pool[slot as int].record),
            mismatch_line(day_gap, pool[slot as int].record),
        ],
        MatchOutcome::Matched { slot, .. } => seq![
            ledger_line(pool[slot as int].record),
            Seq::empty(),
        ],
        MatchOutcome::Unmatched { .. } => seq!["Could not find ledger record"@, Seq::empty()],
    }
}

/// The trace of the outcomes before `end`.
pub open spec fn trace_lines(
    externals: Seq<ExternalRecord>,
    pool: Seq<Slot>,
    outcomes: Seq<MatchOutcome>,
    end: int,
) -> Seq<Seq<char>>
    decreases end,
{
    if end <= 0 {
        Seq::empty()
    } else {
        trace_lines(externals, pool, outcomes, end - 1) + outcome_lines(
            externals,
            pool,
            outcomes,
            end - 1,
        )
    }
}

/// The lines of the ledger records before `end` that are still available.
pub open spec fn unaccounted_lines(pool: Seq<Slot>, end: int) -> Seq<Seq<char>>
    decreases end,
{
    if end <= 0 {
        Seq::empty()
    } else if pool[end - 1].available {
        unaccounted_lines(pool, end - 1).push(unaccounted_line(pool[end - 1].record))
    } else {
        unaccounted_lines(pool, end - 1)
    }
}

/// The summary of a run: a heading, the ledger records left unaccounted,
/// an empty line, and the three totals.
pub open spec fn summary_lines(pool: Seq<Slot>, totals: Totals) -> Seq<Seq<char>> {
    seq!["Unaccounted ledger records:"@] + unaccounted_lines(pool, pool.len() as int) + seq![
        Seq::empty(),
        total_line("spent"@, totals.outflow as int),
        total_line("paid"@, totals.inflow as int),
        total_line("total"@, totals.total as int),
    ]
}

/// Renders the line for an external record and the running total after it.
pub fn render_record_line(record: &ExternalRecord, running: i128) -> (r: String)
    ensures
        r@ == record_line(*record, running as int),
{
    proof {
        reveal_strlit(" ");
    }
    let mut out = String::new();
    record.timestamp.push_onto(&mut out);
    out.append(" ");
    push_padded(&mut out, record.description.as_str(), DESCRIPTION_WIDTH);
    out.append(" ");
    push_units(&mut out, record.signed_amount().units() as i128);
    out.append(" ");
    push_units(&mut out, running);
    assert(out@ =~= record_line(*record, running as int));
    out
}

/// Renders the line for a ledger record that was matched or passed over.
pub fn render_ledger_line(record: &LedgerRecord) -> (r: String)
    ensures
        r@ == ledger_line(*record),
{
    proof {
        reveal_strlit(" ");
        reveal_strlit("          ");
    }
    let mut out = String::new();
    record.date.push_onto(&mut out);
    out.append("          ");
    push_padded(&mut out, record.description.as_str(), DESCRIPTION_WIDTH);
    out.append(" ");
    push_units(&mut out, record.amount.units() as i128);
    assert("          "@ =~= spaces(10));
    assert(out@ =~= ledger_line(*record));
    out
}

/// Renders the line that says by how many days a ledger record missed the
/// window.
pub fn render_mismatch_line(gap: i64, record: &LedgerRecord) -> (r: String)
    ensures
        r@ == mismatch_line(gap, *record),
{
    proof {
        reveal_strlit(" ");
    }
    let mut out = String::new();
    out.append("Date mismatch: ");
    push_integer(&mut out, gap);
    out.append(" ");
    record.date.push_onto(&mut out);
    assert(out@ =~= mismatch_line(gap, *record));
    out
}

/// Renders the line for a ledger record that no external record accounts
/// for.
pub fn render_unaccounted_line(record: &LedgerRecord) -> (r: String)
    ensures
        r@ == unaccounted_line(*record),
{
    proof {
        reveal_strlit(" ");
    }
    let date = record.date.render();
    let mut out = String::new();
    push_padded(&mut out, date.as_str(), DATE_WIDTH);
    out.append(" ");
    push_padded(&mut out, record.description.as_str(), DESCRIPTION_WIDTH);
    out.append(" ");
    push_units(&mut out, record.amount.units() as i128);
    assert(out@ =~= unaccounted_line(*record));
    out
}

/// Renders a line that names a total.
pub fn render_total_line(label: &str, units: i128) -> (r: String)
    ensures
        r@ == total_line(label@, units as int),
{
    proof {
        reveal_strlit(" ");
    }
    let mut out = String::new();
    out.append(label);
    out.append(" ");
    push_units(&mut out, units);
    assert(out@ =~= total_line(label@, units as int));
    out
}

/// Renders the trace of a run: for each external record its line, the
/// ledger records passed over or matched, and an empty line.
pub fn render_trace(
    externals: &Vec<ExternalRecord>,
    pool: &LedgerPool,
    outcomes: &Vec<MatchOutcome>,
) -> (lines: Vec<String>)
    requires
        indexed(outcomes@, externals@.len() as int, pool@.len() as int),
    ensures
        texts(lines@) == trace_lines(externals@, pool@, outcomes@, outcomes@.len() as int),
{
    let running = running_totals(externals);
    let mut lines: Vec<String> = Vec::new();
    let mut j: usize = 0;
    assert(texts(lines@) =~= Seq::<Seq<char>>::empty());
    while j < outcomes.len()
        invariant
            0 <= j <= outcomes@.len(),
            indexed(outcomes@, externals@.len() as int, pool@.len() as int),
            running@.len() == externals@.len(),
            forall|k: int|
                0 <= k < running@.len() ==> (#[trigger] running@[k]).sums_up(
                    externals@.take(k + 1),
                ),
            texts(lines@) == trace_lines(externals@, pool@, outcomes@, j as int),
        decreases outcomes@.len() - j,
    {
        let ghost before = texts(lines@);
        let outcome = outcomes[j];
        let external = outcome.external();
        let opens = j == 0 || outcomes[j - 1].external() != external;
        if opens {
            let line = render_record_line(&externals[external], running[external].total);
            lines.push(line);
        }
        match outcome {
            MatchOutcome::ZeroAmount { .. } => {
                lines.push(String::new());
            },
            MatchOutcome::DateMismatch { slot, day_gap, .. } => {
                lines.push(render_ledger_line(pool.record(slot)));
                lines.push(render_mismatch_line(day_gap, pool.record(slot)));
            },
            MatchOutcome::Matched { slot, .. } => {
                lines.push(render_ledger_line(pool.record(slot)));
                lines.push(String::new());
            },
            MatchOutcome::Unmatched { .. } => {
                lines.push("Could not find ledger record".to_owned());
                lines.push(String::new());
            },
        }
        assert(texts(lines@) =~= before + outcome_lines(externals@, pool@, outcomes@, j as int));
        j = j + 1;
    }
    lines
}

/// Renders the summary of a run: the ledger records that are still
/// available in the pool, and the totals.
pub fn render_summary(pool: &LedgerPool, totals: Totals) -> (lines: Vec<String>)
    ensures
        texts(lines@) == summary_lines(pool@, totals),
{
    let mut lines: Vec<String> = Vec::new();
    lines.push("Unaccounted ledger records:".to_owned());
    let ghost heading = texts(lines@);
    assert(heading =~= seq!["Unaccounted ledger records:"@]);
    let mut i: usize = 0;
    while i < pool.len()
        invariant
            0 <= i <= pool@.len(),
            texts(lines@) == heading + unaccounted_lines(pool@, i as int),
        decreases pool@.len() - i,
    {
        let ghost before = texts(lines@);
        if pool.is_available(i) {
            lines.push(render_unaccounted_line(pool.record(i)));
            assert(texts(lines@) =~= before.push(unaccounted_line(pool@[i as int].record)));
        }
        i = i + 1;
        assert(texts(lines@) =~= heading + unaccounted_lines(pool@, i as int));
    }
    let ghost listed = texts(lines@);
    lines.push(String::new());
    lines.push(render_total_line("spent", totals.outflow));
    lines.push(render_total_line("paid", totals.inflow));
    lines.push(render_total_line("total", totals.total));
    assert(texts(lines@) =~= listed + seq![
        Seq::empty(),
        total_line("spent"@, totals.outflow as int),
        total_line("paid"@, totals.inflow as int),
        total_line("total"@, totals.total as int),
    ]);
    lines
}

/// A run with its report.
#[derive(Debug)]
pub struct Report {
    /// What the engine reported.
    pub reconciliation: Reconciliation,
    /// The totals over the external records that were handled.
    pub totals: Totals,
    /// The trace, line by line.
    pub trace: Vec<String>,
    /// The summary, line by line.
    pub summary: Vec<String>,
}

/// Runs the external records against the pool, as [`reconcile`] does, and
/// renders the trace and the summary of the run.
pub fn report(externals: &Vec<ExternalRecord>, pool: &mut LedgerPool, policy: Policy) -> (r: Report)
    ensures
        r.reconciliation.outcomes@ == run(
            externals@,
            old(pool)@,
            policy,
            externals@.len(),
        ).outcomes,
        final(pool)@ == run(externals@, old(pool)@, policy, externals@.len()).pool,
        r.reconciliation.processed == run(
            externals@,
            old(pool)@,
            policy,
            externals@.len(),
        ).processed,
        r.reconciliation.halted == run(externals@, old(pool)@, policy, externals@.len()).halted,
        r.reconciliation.processed <= externals@.len(),
        r.totals.sums_up(externals@.take(r.reconciliation.processed as int)),
        texts(r.trace@) == trace_lines(
            externals@,
            final(pool)@,
            r.reconciliation.outcomes@,
            r.reconciliation.outcomes@.len() as int,
        ),
        texts(r.summary@) == summary_lines(final(pool)@, r.totals),
{
    let reconciliation = reconcile(externals, pool, policy);
    let running = running_totals(externals);
    let totals = if reconciliation.processed == 0 {
        assert(externals@.take(0) =~= Seq::<ExternalRecord>::empty());
        Totals::zero()
    } else {
        running[reconciliation.processed - 1]
    };
    let trace = render_trace(externals, pool, &reconciliation.outcomes);
    let summary = render_summary(pool, totals);
    Report { reconciliation, totals, trace, summary }
}

} // verus!
