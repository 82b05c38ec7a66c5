//! The matching engine: external records against the pool of ledger
//! records.

use vstd::prelude::*;
use crate::amount::Amount;
use crate::calendar::CalendarDate;
use crate::laws::law_conservation;
use crate::laws::law_outcomes_borne_out;
use crate::ledger::LedgerRecord;
use crate::record::ExternalRecord;

verus! {

/// The inclusive range of day differences, external date minus ledger
/// date, inside which two records of the same amount are taken for one
/// transaction.
#[derive(Clone, Copy, Debug, PartialEq, Eq, Structural)]
pub struct Window {
    pub min_days: i64,
    pub max_days: i64,
}

impl Window {
    /// Whether a day difference lies inside the window.
    pub open spec fn admits(self, gap: int) -> bool {
        self.min_days <= gap <= self.max_days
    }

    /// The window of the first revision of the export: the ledger date
    /// may lie up to two days after the external date and up to fourteen
    /// days before it.
    pub fn narrow() -> (r: Window)
        ensures
            r.min_days == -2,
            r.max_days == 14,
    {
        Window { min_days: -2, max_days: 14 }
    }

    /// The window of the later revisions: fourteen days either way.
    pub fn wide() -> (r: Window)
        ensures
            r.min_days == -14,
            r.max_days == 14,
    {
        Window { min_days: -14, max_days: 14 }
    }

    /// Whether a day difference lies inside the window.
    pub fn accepts(&self, gap: i64) -> (r: bool)
        ensures
            r == self.admits(gap as int),
    {
        self.min_days <= gap && gap <= self.max_days
    }
}

/// What the engine reports. `external` is the position of the external
/// record in the sequence handed to the run, `slot` the position of the
/// ledger record in the pool.
#[derive(Clone, Copy, Debug, PartialEq, Eq, Structural)]
pub enum MatchOutcome {
    /// The external record moves nothing; no match was looked for.
    ZeroAmount { external: usize },
    /// A ledger record of the right amount was passed over: `day_gap`, the
    /// external record's date minus its own, lies outside the window.
    DateMismatch { external: usize, slot: usize, day_gap: i64 },
    /// The external record was paired with the ledger record, which left
    /// the pool.
    Matched { external: usize, slot: usize },
    /// No ledger record left in the pool qualifies.
    Unmatched { external: usize },
}

impl MatchOutcome {
    /// The position of the external record that the outcome is about.
    pub open spec fn named_external(self) -> usize {
        match self {
            MatchOutcome::ZeroAmount { external } => external,
            MatchOutcome::DateMismatch { external, .. } => external,
            MatchOutcome::Matched { external, .. } => external,
            MatchOutcome::Unmatched { external } => external,
        }
    }

    /// The slot of the ledger record that the outcome names, if it names
    /// one.
    pub open spec fn named_slot(self) -> Option<usize> {
        match self {
            MatchOutcome::DateMismatch { slot, .. } => Some(slot),
            MatchOutcome::Matched { slot, .. } => Some(slot),
            _ => None,
        }
    }

    /// The position of the external record that the outcome is about.
    pub fn external(&self) -> (r: usize)
        ensures
            r == self.named_external(),
    {
        match self {
            MatchOutcome::ZeroAmount { external } => *external,
            MatchOutcome::DateMismatch { external, .. } => *external,
            MatchOutcome::Matched { external, .. } => *external,
            MatchOutcome::Unmatched { external } => *external,
        }
    }

    /// The slot of the ledger record that the outcome names, if it names one.
    pub fn slot(&self) -> (r: Option<usize>)
        ensures
            r == self.named_slot(),
    {
        match self {
            MatchOutcome::DateMismatch { slot, .. } => Some(*slot),
            MatchOutcome::Matched { slot, .. } => Some(*slot),
            _ => None,
        }
    }
}

/// A place in the pool: a ledger record, and whether it may still be
/// matched.
#[derive(Debug)]
pub struct Slot {
    pub record: LedgerRecord,
    pub available: bool,
}

/// Whether the slot holds an available record of the given amount.
pub open spec fn is_candidate(slot: Slot, amount: int) -> bool {
    slot.available && slot.record.amount@ == amount
}

/// The day difference between an external date and the slot's record.
pub open spec fn day_gap(day: i32, slot: Slot) -> int {
    day - slot.record.date.day_count()
}

/// Whether the slot's record may be paired with an external record of the
/// given amount and day.
pub open spec fn qualifies(slot: Slot, amount: int, day: i32, window: Window) -> bool {
    is_candidate(slot, amount) && window.admits(day_gap(day, slot))
}

/// Whether `i` is the first slot of the pool that qualifies.
pub open spec fn is_first_match(
    pool: Seq<Slot>,
    amount: int,
    day: i32,
    window: Window,
    i: int,
) -> bool {
    &&& 0 <= i < pool.len()
    &&& qualifies(pool[i], amount, day, window)
    &&& forall|j: int| 0 <= j < i ==> !qualifies(#[trigger] pool[j], amount, day, window)
}

/// The first slot of the pool that qualifies, if any does.
pub open spec fn first_match(pool: Seq<Slot>, amount: int, day: i32, window: Window) -> Option<
    int,
> {
    if exists|i: int| is_first_match(pool, amount, day, window, i) {
        Some(choose|i: int| is_first_match(pool, amount, day, window, i))
    } else {
        None
    }
}

/// The date mismatches reported while the slots before `end` are passed:
/// one for each candidate outside the window, in pool order.
pub open spec fn mismatches(
    pool: Seq<Slot>,
    external: usize,
    amount: int,
    day: i32,
    window: Window,
    end: int,
) -> Seq<MatchOutcome>
    decreases end,
{
    if end <= 0 {
        Seq::empty()
    } else {
        let before = mismatches(pool, external, amount, day, window, end - 1);
        let slot = pool[end - 1];
        if is_candidate(slot, amount) && !window.admits(day_gap(day, slot)) {
            before.push(
                MatchOutcome::DateMismatch {
                    external,
                    slot: (end - 1) as usize,
                    day_gap: day_gap(day, slot) as i64,
                },
            )
        } else {
            before
        }
    }
}

/// What the engine reports for one external record of the given signed
/// amount and day, in order.
pub open spec fn step_outcomes(
    pool: Seq<Slot>,
    external: usize,
    amount: int,
    day: i32,
    window: Window,
) -> Seq<MatchOutcome> {
    if amount == 0 {
        seq![MatchOutcome::ZeroAmount { external }]
    } else {
        match first_match(pool, amount, day, window) {
            Some(i) => mismatches(pool, external, amount, day, window, i).push(
                MatchOutcome::Matched { external, slot: i as usize },
            ),
            None => mismatches(pool, external, amount, day, window, pool.len() as int).push(
                MatchOutcome::Unmatched { external },
            ),
        }
    }
}

/// The pool with slot `i` consumed.
pub open spec fn consumed(pool: Seq<Slot>, i: int) -> Seq<Slot> {
    pool.update(i, Slot { record: pool[i].record, available: false })
}

/// The pool after one external record: the matched slot, if any, has left
/// it.
pub open spec fn step_pool(pool: Seq<Slot>, amount: int, day: i32, window: Window) -> Seq<Slot> {
    if amount == 0 {
        pool
    } else {
        match first_match(pool, amount, day, window) {
            Some(i) => consumed(pool, i),
            None => pool,
        }
    }
}

/// How a run is to be made.
#[derive(Clone, Copy, Debug, PartialEq, Eq, Structural)]
pub struct Policy {
    pub window: Window,
    /// Whether the run ends at the first external record left unmatched.
    /// Otherwise every record is handled and each unmatched one reported.
    pub stop_on_first_unmatched: bool,
}

/// How far a run has come.
pub struct Progress {
    /// Everything reported so far, in order.
    pub outcomes: Seq<MatchOutcome>,
    /// The pool as the records handled so far have left it.
    pub pool: Seq<Slot>,
    /// How many external records have been handled.
    pub processed: nat,
    /// Whether the run has ended early on an unmatched record.
    pub halted: bool,
}

/// The run over the first `count` external records, from the pool `pool`.
pub open spec fn run(
    externals: Seq<ExternalRecord>,
    pool: Seq<Slot>,
    policy: Policy,
    count: nat,
) -> Progress
    decreases count,
{
    if count == 0 {
        Progress { outcomes: Seq::empty(), pool, processed: 0, halted: false }
    } else {
        let before = run(externals, pool, policy, (count - 1) as nat);
        if before.halted {
            before
        } else {
            let record = externals[count - 1];
            let amount = record.signed_units();
            let day = record.timestamp.date.day_count();
            let reported = step_outcomes(
                before.pool,
                (count - 1) as usize,
                amount,
                day,
                policy.window,
            );
            Progress {
                outcomes: before.outcomes + reported,
                pool: step_pool(before.pool, amount, day, policy.window),
                processed: count,
                halted: policy.stop_on_first_unmatched && reported.last() is Unmatched,
            }
        }
    }
}

/// The position of the first external record that a stream of outcomes
/// reports as unmatched.
pub open spec fn first_unmatched(outcomes: Seq<MatchOutcome>) -> Option<usize>
    decreases outcomes.len(),
{
    if outcomes.len() == 0 {
        None
    } else {
        match first_unmatched(outcomes.drop_last()) {
            Some(external) => Some(external),
            None => match outcomes.last() {
                MatchOutcome::Unmatched { external } => Some(external),
                _ => None,
            },
        }
    }
}

/// A run that has halted stays as it is.
pub proof fn lemma_halted_run_stays(
    externals: Seq<ExternalRecord>,
    pool: Seq<Slot>,
    policy: Policy,
    at: nat,
    later: nat,
)
    requires
        at <= later,
        run(externals, pool, policy, at).halted,
    ensures
        run(externals, pool, policy, later) == run(externals, pool, policy, at),
    decreases later,
{
    if at < later {
        lemma_halted_run_stays(externals, pool, policy, at, (later - 1) as nat);
    }
}

/// There is at most one first match.
pub proof fn lemma_first_match_is(pool: Seq<Slot>, amount: int, day: i32, window: Window, i: int)
    requires
        is_first_match(pool, amount, day, window, i),
    ensures
        first_match(pool, amount, day, window) == Some(i),
{
    let chosen = choose|k: int| is_first_match(pool, amount, day, window, k);
    if chosen < i {
        assert(!qualifies(pool[chosen], amount, day, window));
    } else if i < chosen {
        assert(!qualifies(pool[i], amount, day, window));
    }
}

/// The ledger records of a run, each in its slot.
#[derive(Debug)]
pub struct LedgerPool {
    slots: Vec<Slot>,
}

impl View for LedgerPool {
    type V = Seq<Slot>;

    closed spec fn view(&self) -> Seq<Slot> {
        self.slots@
    }
}

impl LedgerPool {
    /// A pool that holds the records in their order, all of them available.
    pub fn new(records: Vec<LedgerRecord>) -> (pool: LedgerPool)
        ensures
            pool@.len() == records@.len(),
            forall|i: int|
                0 <= i < records@.len() ==> (#[trigger] pool@[i]).record == records@[i]
                    && pool@[i].available,
    {
        let mut records = records;
        let ghost all = records@;
        let mut reversed: Vec<Slot> = Vec::new();
        while records.len() > 0
            invariant
                records@ == all.take(records@.len() as int),
                reversed@.len() == all.len() - records@.len(),
                forall|j: int|
                    0 <= j < reversed@.len() ==> (#[trigger] reversed@[j]).record == all[all.len()
                        - 1 - j] && reversed@[j].available,
            decreases records@.len(),
        {
            let record = records.pop().unwrap();
            reversed.push(Slot { record, available: true });
        }
        let mut slots: Vec<Slot> = Vec::new();
        while reversed.len() > 0
            invariant
                reversed@.len() + slots@.len() == all.len(),
                forall|j: int|
                    0 <= j < reversed@.len() ==> (#[trigger] reversed@[j]).record == all[all.len()
                        - 1 - j] && reversed@[j].available,
                forall|j: int|
                    0 <= j < slots@.len() ==> (#[trigger] slots@[j]).record == all[j]
                        && slots@[j].available,
            decreases reversed@.len(),
        {
            let slot = reversed.pop().unwrap();
            slots.push(slot);
        }
        LedgerPool { slots }
    }

    /// How many slots the pool has, available or not.
    pub fn len(&self) -> (n: usize)
        ensures
            n == self@.len(),
    {
        self.slots.len()
    }

    /// The ledger record in a slot, whether it has been matched or not.
    pub fn record(&self, slot: usize) -> (r: &LedgerRecord)
        requires
            slot < self@.len(),
        ensures
            *r == self@[slot as int].record,
    {
        &self.slots[slot].record
    }

    /// Whether the record in a slot may still be matched.
    pub fn is_available(&self, slot: usize) -> (r: bool)
        requires
            slot < self@.len(),
        ensures
            r == self@[slot as int].available,
    {
        self.slots[slot].available
    }

    /// Looks for the first slot that qualifies for an external record of
    /// the given amount and date, and appends a date mismatch for each
    /// candidate passed on the way.
    pub fn scan(
        &self,
        external: usize,
        amount: Amount,
        date: &CalendarDate,
        window: Window,
        outcomes: &mut Vec<MatchOutcome>,
    ) -> (found: Option<usize>)
        ensures
            found matches Some(i) ==> is_first_match(
                self@,
                amount@,
                date.day_count(),
                window,
                i as int,
            ),
            found is None ==> forall|j: int|
                0 <= j < self@.len() ==> !qualifies(
                    #[trigger] self@[j],
                    amount@,
                    date.day_count(),
                    window,
                ),
            found == match first_match(self@, amount@, date.day_count(), window) {
                Some(i) => Some(i as usize),
                None => None,
            },
            final(outcomes)@ == old(outcomes)@ + mismatches(
                self@,
                external,
                amount@,
                date.day_count(),
                window,
                match found {
                    Some(i) => i as int,
                    None => self@.len() as int,
                },
            ),
    {
        let ghost day = date.day_count();
        let mut i: usize = 0;
        while i < self.slots.len()
            invariant
                0 <= i <= self.slots@.len(),
                day == date.day_count(),
                forall|j: int| 0 <= j < i ==> !qualifies(#[trigger] self@[j], amount@, day, window),
                outcomes@ == old(outcomes)@ + mismatches(
                    self@,
                    external,
                    amount@,
                    day,
                    window,
                    i as int,
                ),
            decreases self.slots@.len() - i,
        {
            let slot = &self.slots[i];
            if slot.available && slot.record.amount.units() == amount.units() {
                let gap = date.days_since(&slot.record.date);
                if window.accepts(gap) {
                    proof {
                        lemma_first_match_is(self@, amount@, day, window, i as int);
                    }
                    return Some(i);
                }
                outcomes.push(MatchOutcome::DateMismatch { external, slot: i, day_gap: gap });
            }
            i = i + 1;
        }
        None
    }

    /// Takes the record in a slot out of the pool.
    pub fn consume(&mut self, slot: usize)
        requires
            slot < old(self)@.len(),
        ensures
            final(self)@ == consumed(old(self)@, slot as int),
    {
        self.slots[slot].available = false;
    }

    /// Handles one external record: reports a zero amount, or looks for the
    /// first qualifying slot, consumes it, and reports the match or its
    /// absence after the date mismatches met on the way. Returns the last
    /// outcome reported.
    pub fn match_record(
        &mut self,
        external: usize,
        record: &ExternalRecord,
        window: Window,
        outcomes: &mut Vec<MatchOutcome>,
    ) -> (last: MatchOutcome)
        ensures
            final(outcomes)@ == old(outcomes)@ + step_outcomes(
                old(self)@,
                external,
                record.signed_units(),
                record.timestamp.date.day_count(),
                window,
            ),
            final(self)@ == step_pool(
                old(self)@,
                record.signed_units(),
                record.timestamp.date.day_count(),
                window,
            ),
            last == step_outcomes(
                old(self)@,
                external,
                record.signed_units(),
                record.timestamp.date.day_count(),
                window,
            ).last(),
            last.named_external() == external,
            last is ZeroAmount <==> record.signed_units() == 0,
            last matches MatchOutcome::Matched { slot, .. } ==> {
                &&& is_first_match(
                    old(self)@,
                    record.signed_units(),
                    record.timestamp.date.day_count(),
                    window,
                    slot as int,
                )
                &&& final(self)@ == consumed(old(self)@, slot as int)
            },
            last is Unmatched ==> {
                &&& final(self)@ == old(self)@
                &&& forall|j: int|
                    0 <= j < old(self)@.len() ==> !qualifies(
                        #[trigger] old(self)@[j],
                        record.signed_units(),
                        record.timestamp.date.day_count(),
                        window,
                    )
            },
            !(last is DateMismatch),
    {
        let amount = record.signed_amount();
        let last = if amount.units() == 0 {
            MatchOutcome::ZeroAmount { external }
        } else {
            match self.scan(external, amount, &record.timestamp.date, window, outcomes) {
                Some(slot) => {
                    self.consume(slot);
                    MatchOutcome::Matched { external, slot }
                },
                None => MatchOutcome::Unmatched { external },
            }
        };
        outcomes.push(last);
        last
    }

    /// The slots whose records are still available, in pool order: after a
    /// run, the ledger records that no external record accounts for.
    pub fn unaccounted(&self) -> (slots: Vec<usize>)
        ensures
            slots@ == available_slots(self@, self@.len() as int),
    {
        let mut slots: Vec<usize> = Vec::new();
        let mut i: usize = 0;
        while i < self.slots.len()
            invariant
                0 <= i <= self.slots@.len(),
                slots@ == available_slots(self@, i as int),
            decreases self.slots@.len() - i,
        {
            if self.slots[i].available {
                slots.push(i);
            }
            i = i + 1;
        }
        slots
    }
}

/// The available slots before `end`, in pool order.
pub open spec fn available_slots(pool: Seq<Slot>, end: int) -> Seq<usize>
    decreases end,
{
    if end <= 0 {
        Seq::empty()
    } else if pool[end - 1].available {
        available_slots(pool, end - 1).push((end - 1) as usize)
    } else {
        available_slots(pool, end - 1)
    }
}

/// How many matches a stream of outcomes reports.
pub open spec fn matched_count(outcomes: Seq<MatchOutcome>) -> nat
    decreases outcomes.len(),
{
    if outcomes.len() == 0 {
        0
    } else {
        matched_count(outcomes.drop_last()) + if outcomes.last() is Matched {
            1nat
        } else {
            0nat
        }
    }
}

/// How many times a stream of outcomes reports a match with the given slot.
pub open spec fn times_matched(outcomes: Seq<MatchOutcome>, slot: int) -> nat
    decreases outcomes.len(),
{
    if outcomes.len() == 0 {
        0
    } else {
        times_matched(outcomes.drop_last(), slot) + if outcomes.last() matches MatchOutcome::Matched {
            slot: s,
            ..
        } && s == slot {
            1nat
        } else {
            0nat
        }
    }
}

/// How many slots of a pool are available.
pub open spec fn unaccounted_count(pool: Seq<Slot>) -> nat {
    available_slots(pool, pool.len() as int).len()
}

/// One if the slot is available, zero if not.
pub open spec fn availability(slot: Slot) -> nat {
    if slot.available {
        1
    } else {
        0
    }
}

/// Whether the records that an outcome names bear it out: the external
/// record exists and moves nothing exactly where the outcome is a zero
/// amount; a matched ledger record has the external record's signed amount
/// and a date inside the window; a mismatched one has that amount too, and
/// the day difference reported, which lies outside the window.
pub open spec fn borne_out(
    outcome: MatchOutcome,
    externals: Seq<ExternalRecord>,
    pool: Seq<Slot>,
    window: Window,
) -> bool {
    match outcome {
        MatchOutcome::ZeroAmount { external } => {
            &&& external < externals.len()
            &&& externals[external as int].signed_units() == 0
        },
        MatchOutcome::DateMismatch { external, slot, day_gap: gap } => {
            &&& external < externals.len()
            &&& slot < pool.len()
            &&& externals[external as int].signed_units() != 0
            &&& pool[slot as int].record.amount@ == externals[external as int].signed_units()
            &&& gap == day_gap(
                externals[external as int].timestamp.date.day_count(),
                pool[slot as int],
            )
            &&& !window.admits(gap as int)
        },
        MatchOutcome::Matched { external, slot } => {
            &&& external < externals.len()
            &&& slot < pool.len()
            &&& externals[external as int].signed_units() != 0
            &&& pool[slot as int].record.amount@ == externals[external as int].signed_units()
            &&& window.admits(
                day_gap(externals[external as int].timestamp.date.day_count(), pool[slot as int]),
            )
        },
        MatchOutcome::Unmatched { external } => {
            &&& external < externals.len()
            &&& externals[external as int].signed_units() != 0
        },
    }
}

/// What a run gives back.
#[derive(Debug)]
pub struct Reconciliation {
    /// Everything reported, in order.
    pub outcomes: Vec<MatchOutcome>,
    /// How many external records were handled.
    pub processed: usize,
    /// Whether the run ended early on an unmatched record.
    pub halted: bool,
}

/// Why a run failed.
#[derive(Clone, Copy, Debug, PartialEq, Eq, Structural)]
pub enum ReconcileError {
    /// The external record at this position has no ledger record.
    Unmatched { external: usize },
}

impl Reconciliation {
    /// Whether the run may be trusted: an error naming the first external
    /// record reported as unmatched, where there is one.
    pub fn verdict(&self) -> (r: Result<(), ReconcileError>)
        ensures
            r == match first_unmatched(self.outcomes@) {
                Some(external) => Err::<(), ReconcileError>(ReconcileError::Unmatched { external }),
                None => Ok(()),
            },
    {
        let mut i: usize = 0;
        while i < self.outcomes.len()
            invariant
                0 <= i <= self.outcomes@.len(),
                first_unmatched(self.outcomes@.take(i as int)) is None,
            decreases self.outcomes@.len() - i,
        {
            proof {
                assert(self.outcomes@.take(i + 1).drop_last() == self.outcomes@.take(i as int));
            }
            match self.outcomes[i] {
                MatchOutcome::Unmatched { external } => {
                    proof {
                        lemma_first_unmatched_stays(self.outcomes@, i + 1);
                    }
                    return Err(ReconcileError::Unmatched { external });
                },
                _ => {},
            }
            i = i + 1;
        }
        proof {
            assert(self.outcomes@.take(i as int) == self.outcomes@);
        }
        Ok(())
    }
}

/// Once a prefix of a stream reports an unmatched record, the whole stream
/// reports the same one first.
pub proof fn lemma_first_unmatched_stays(outcomes: Seq<MatchOutcome>, prefix: int)
    requires
        0 <= prefix <= outcomes.len(),
        first_unmatched(outcomes.take(prefix)) is Some,
    ensures
        first_unmatched(outcomes) == first_unmatched(outcomes.take(prefix)),
    decreases outcomes.len() - prefix,
{
    if prefix < outcomes.len() {
        assert(outcomes.take(prefix + 1).drop_last() == outcomes.take(prefix));
        lemma_first_unmatched_stays(outcomes, prefix + 1);
    } else {
        assert(outcomes.take(prefix) == outcomes);
    }
}

/// Runs the external records, in their order, against the pool. Each is
/// paired with the first available ledger record of its signed amount whose
/// date lies inside the window; that record leaves the pool. Under
/// `stop_on_first_unmatched` the run ends with the first record that finds
/// none.
pub fn reconcile(externals: &Vec<ExternalRecord>, pool: &mut LedgerPool, policy: Policy) -> (r:
    Reconciliation)
    ensures
        r.outcomes@ == run(externals@, old(pool)@, policy, externals@.len()).outcomes,
        final(pool)@ == run(externals@, old(pool)@, policy, externals@.len()).pool,
        r.processed == run(externals@, old(pool)@, policy, externals@.len()).processed,
        r.halted == run(externals@, old(pool)@, policy, externals@.len()).halted,
        r.processed <= externals@.len(),
        r.halted ==> policy.stop_on_first_unmatched,
        !r.halted ==> r.processed == externals@.len(),
        final(pool)@.len() == old(pool)@.len(),
        matched_count(r.outcomes@) + unaccounted_count(final(pool)@) == unaccounted_count(
            old(pool)@,
        ),
        forall|i: int|
            0 <= i < old(pool)@.len() ==> {
                &&& (#[trigger] final(pool)@[i]).record == old(pool)@[i].record
                &&& times_matched(r.outcomes@, i) + availability(final(pool)@[i]) == availability(
                    old(pool)@[i],
                )
            },
        forall|j: int|
            0 <= j < r.outcomes@.len() ==> borne_out(
                #[trigger] r.outcomes@[j],
                externals@,
                old(pool)@,
                policy.window,
            ),
{
    let ghost start = pool@;
    let slots = pool.len();
    let count = externals.len();
    proof {
        law_conservation(externals@, start, policy);
        law_outcomes_borne_out(externals@, start, policy);
    }
    let mut outcomes: Vec<MatchOutcome> = Vec::new();
    let mut halted = false;
    let mut done: usize = 0;
    while done < externals.len() && !halted
        invariant
            0 <= done <= externals@.len(),
            halted ==> policy.stop_on_first_unmatched,
            run(externals@, start, policy, done as nat) == (Progress {
                outcomes: outcomes@,
                pool: pool@,
                processed: done as nat,
                halted,
            }),
        decreases externals@.len() - done,
    {
        let last = pool.match_record(done, &externals[done], policy.window, &mut outcomes);
        halted = policy.stop_on_first_unmatched && matches!(last, MatchOutcome::Unmatched { .. });
        done = done + 1;
    }
    proof {
        if halted {
            lemma_halted_run_stays(externals@, start, policy, done as nat, externals@.len());
        }
    }
    Reconciliation { outcomes, processed: done, halted }
}

} // verus!
