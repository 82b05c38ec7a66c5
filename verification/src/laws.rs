//! What holds of every run of the matching engine, proved from its
//! definition.

use vstd::prelude::*;
use crate::reconcile::availability;
use crate::reconcile::available_slots;
use crate::reconcile::borne_out;
use crate::reconcile::consumed;
use crate::reconcile::day_gap;
use crate::reconcile::first_match;
use crate::reconcile::is_candidate;
use crate::reconcile::is_first_match;
use crate::reconcile::lemma_first_match_is;
use crate::reconcile::matched_count;
use crate::reconcile::mismatches;
use crate::reconcile::qualifies;
use crate::reconcile::run;
use crate::reconcile::step_outcomes;
use crate::reconcile::step_pool;
use crate::reconcile::times_matched;
use crate::reconcile::unaccounted_count;
use crate::reconcile::MatchOutcome;
use crate::reconcile::Policy;
use crate::reconcile::Slot;
use crate::reconcile::Window;
use crate::record::ExternalRecord;
use crate::totals::inflow_of;
use crate::totals::outflow_of;
use crate::totals::total_of;

verus! {

proof fn lemma_matched_count_joins(a: Seq<MatchOutcome>, b: Seq<MatchOutcome>)
    ensures
        matched_count(a + b) == matched_count(a) + matched_count(b),
    decreases b.len(),
{
    if b.len() == 0 {
        assert(a + b == a);
    } else {
        assert((a + b).drop_last() == a + b.drop_last());
        lemma_matched_count_joins(a, b.drop_last());
    }
}

proof fn lemma_times_matched_joins(a: Seq<MatchOutcome>, b: Seq<MatchOutcome>, slot: int)
    ensures
        times_matched(a + b, slot) == times_matched(a, slot) + times_matched(b, slot),
    decreases b.len(),
{
    if b.len() == 0 {
        assert(a + b == a);
    } else {
        assert((a + b).drop_last() == a + b.drop_last());
        lemma_times_matched_joins(a, b.drop_last(), slot);
    }
}

/// The date mismatches of a scan hold no match.
proof fn lemma_mismatches_hold_no_match(
    pool: Seq<Slot>,
    external: usize,
    amount: int,
    day: i32,
    window: Window,
    end: int,
    slot: int,
)
    ensures
        matched_count(mismatches(pool, external, amount, day, window, end)) == 0,
        times_matched(mismatches(pool, external, amount, day, window, end), slot) == 0,
    decreases end,
{
    if end > 0 {
        lemma_mismatches_hold_no_match(pool, external, amount, day, window, end - 1, slot);
        let before = mismatches(pool, external, amount, day, window, end - 1);
        let all = mismatches(pool, external, amount, day, window, end);
        if all != before {
            assert(all.drop_last() == before);
        }
    }
}

/// Consuming a slot takes it, and nothing else, out of the available
/// slots.
proof fn lemma_consumed_count(pool: Seq<Slot>, i: int, end: int)
    requires
        0 <= i < pool.len(),
        0 <= end <= pool.len(),
    ensures
        available_slots(consumed(pool, i), end).len() + (if i < end && pool[i].available {
            1nat
        } else {
            0nat
        }) == available_slots(pool, end).len(),
    decreases end,
{
    if end > 0 {
        lemma_consumed_count(pool, i, end - 1);
    }
}

/// One step of a run keeps the records in their slots, and moves at most
/// one slot from available to matched.
proof fn lemma_step_conserves(
    pool: Seq<Slot>,
    external: usize,
    amount: int,
    day: i32,
    window: Window,
)
    requires
        pool.len() <= usize::MAX,
    ensures
        ({
            let reported = step_outcomes(pool, external, amount, day, window);
            let after = step_pool(pool, amount, day, window);
            &&& after.len() == pool.len()
            &&& matched_count(reported) + unaccounted_count(after) == unaccounted_count(pool)
            &&& forall|i: int|
                0 <= i < pool.len() ==> {
                    &&& (#[trigger] after[i]).record == pool[i].record
                    &&& times_matched(reported, i) + availability(after[i]) == availability(
                        pool[i],
                    )
                }
        }),
{
    let reported = step_outcomes(pool, external, amount, day, window);
    let after = step_pool(pool, amount, day, window);
    if amount == 0 {
        assert(reported.drop_last() == Seq::<MatchOutcome>::empty());
        assert(matched_count(reported.drop_last()) == 0);
        assert forall|i: int| 0 <= i < pool.len() implies times_matched(reported, i) == 0 by {
            assert(times_matched(reported.drop_last(), i) == 0);
        }
    } else {
        match first_match(pool, amount, day, window) {
            Some(found) => {
                assert(is_first_match(pool, amount, day, window, found));
                let passed = mismatches(pool, external, amount, day, window, found);
                assert(reported.drop_last() == passed);
                lemma_mismatches_hold_no_match(pool, external, amount, day, window, found, 0);
                lemma_consumed_count(pool, found, pool.len() as int);
                assert forall|i: int| 0 <= i < pool.len() implies {
                    &&& (#[trigger] after[i]).record == pool[i].record
                    &&& times_matched(reported, i) + availability(after[i]) == availability(
                        pool[i],
                    )
                } by {
                    lemma_mismatches_hold_no_match(pool, external, amount, day, window, found, i);
                    assert(reported.last() == MatchOutcome::Matched {
                        external,
                        slot: found as usize,
                    });
                    assert(times_matched(reported, i) == times_matched(passed, i) + if found
                        == i {
                        1nat
                    } else {
                        0nat
                    });
                }
            },
            None => {
                let passed = mismatches(pool, external, amount, day, window, pool.len() as int);
                assert(reported.drop_last() == passed);
                lemma_mismatches_hold_no_match(
                    pool,
                    external,
                    amount,
                    day,
                    window,
                    pool.len() as int,
                    0,
                );
                assert forall|i: int| 0 <= i < pool.len() implies times_matched(reported, i)
                    == 0 by {
                    lemma_mismatches_hold_no_match(
                        pool,
                        external,
                        amount,
                        day,
                        window,
                        pool.len() as int,
                        i,
                    );
                }
            },
        }
    }
}

proof fn lemma_run_conserves(
    externals: Seq<ExternalRecord>,
    pool: Seq<Slot>,
    policy: Policy,
    count: nat,
)
    requires
        pool.len() <= usize::MAX,
    ensures
        ({
            let end = run(externals, pool, policy, count);
            &&& end.pool.len() == pool.len()
            &&& matched_count(end.outcomes) + unaccounted_count(end.pool) == unaccounted_count(
                pool,
            )
            &&& forall|i: int|
                0 <= i < pool.len() ==> {
                    &&& (#[trigger] end.pool[i]).record == pool[i].record
                    &&& times_matched(end.outcomes, i) + availability(end.pool[i])
                        == availability(pool[i])
                }
        }),
    decreases count,
{
    if count > 0 {
        let before = run(externals, pool, policy, (count - 1) as nat);
        lemma_run_conserves(externals, pool, policy, (count - 1) as nat);
        if !before.halted {
            let record = externals[count - 1];
            let amount = record.signed_units();
            let day = record.timestamp.date.day_count();
            let reported = step_outcomes(
                before.pool,
                (count - 1) as usize,
                amount,
                day,
                policy.window,
            );
            lemma_step_conserves(before.pool, (count - 1) as usize, amount, day, policy.window);
            lemma_matched_count_joins(before.outcomes, reported);
            let end = run(externals, pool, policy, count);
            assert forall|i: int| 0 <= i < pool.len() implies {
                &&& (#[trigger] end.pool[i]).record == pool[i].record
                &&& times_matched(end.outcomes, i) + availability(end.pool[i]) == availability(
                    pool[i],
                )
            } by {
                lemma_times_matched_joins(before.outcomes, reported, i);
                assert(before.pool[i].record == pool[i].record);
            }
        }
    }
}

/// Conservation. A run neither makes nor loses a ledger record: the pool
/// keeps its slots and their records; each slot that was available before
/// the run is afterwards either still available or reported as matched
/// exactly once, never both; a slot that was not available is never
/// matched; and the matches reported and the slots left available add up to
/// the slots that were available before.
pub proof fn law_conservation(externals: Seq<ExternalRecord>, pool: Seq<Slot>, policy: Policy)
    requires
        pool.len() <= usize::MAX,
    ensures
        ({
            let end = run(externals, pool, policy, externals.len());
            &&& end.pool.len() == pool.len()
            &&& matched_count(end.outcomes) + unaccounted_count(end.pool) == unaccounted_count(
                pool,
            )
            &&& forall|i: int|
                0 <= i < pool.len() ==> {
                    &&& (#[trigger] end.pool[i]).record == pool[i].record
                    &&& times_matched(end.outcomes, i) + availability(end.pool[i])
                        == availability(pool[i])
                }
        }),
{
    lemma_run_conserves(externals, pool, policy, externals.len());
}

/// In a pool whose slots are all available, as many slots are available
/// as it has.
pub proof fn lemma_fresh_pool_count(pool: Seq<Slot>, end: int)
    requires
        0 <= end <= pool.len(),
        forall|i: int| 0 <= i < pool.len() ==> (#[trigger] pool[i]).available,
    ensures
        available_slots(pool, end).len() == end,
    decreases end,
{
    if end > 0 {
        lemma_fresh_pool_count(pool, end - 1);
    }
}

/// Conservation, from a fresh pool: the matches reported and the records
/// left unaccounted add up to the size of the pool.
pub proof fn law_conservation_from_fresh_pool(
    externals: Seq<ExternalRecord>,
    pool: Seq<Slot>,
    policy: Policy,
)
    requires
        pool.len() <= usize::MAX,
        forall|i: int| 0 <= i < pool.len() ==> (#[trigger] pool[i]).available,
    ensures
        ({
            let end = run(externals, pool, policy, externals.len());
            matched_count(end.outcomes) + unaccounted_count(end.pool) == pool.len()
        }),
{
    law_conservation(externals, pool, policy);
    lemma_fresh_pool_count(pool, pool.len() as int);
}

/// What a scan reports on its way: for each slot before `end` that holds a
/// candidate outside the window, and for no other, one date mismatch with
/// the day difference.
proof fn lemma_mismatches_describe(
    pool: Seq<Slot>,
    external: usize,
    amount: int,
    day: i32,
    window: Window,
    end: int,
)
    requires
        0 <= end <= pool.len() <= usize::MAX,
    ensures
        forall|j: int|
            0 <= j < mismatches(pool, external, amount, day, window, end).len() ==> {
                &&& (#[trigger] mismatches(
                    pool,
                    external,
                    amount,
                    day,
                    window,
                    end,
                )[j]) matches MatchOutcome::DateMismatch { external: e, slot, day_gap: gap }
                &&& e == external
                &&& slot < end
                &&& is_candidate(pool[slot as int], amount)
                &&& gap == day_gap(day, pool[slot as int])
                &&& !window.admits(gap as int)
            },
        forall|i: int|
            0 <= i < end && is_candidate(#[trigger] pool[i], amount) && !window.admits(
                day_gap(day, pool[i]),
            ) ==> mismatches(pool, external, amount, day, window, end).contains(
                MatchOutcome::DateMismatch {
                    external,
                    slot: i as usize,
                    day_gap: day_gap(day, pool[i]) as i64,
                },
            ),
    decreases end,
{
    if end > 0 {
        lemma_mismatches_describe(pool, external, amount, day, window, end - 1);
        let before = mismatches(pool, external, amount, day, window, end - 1);
        let all = mismatches(pool, external, amount, day, window, end);
        assert forall|i: int|
            0 <= i < end && is_candidate(#[trigger] pool[i], amount) && !window.admits(
                day_gap(day, pool[i]),
            ) implies all.contains(
            MatchOutcome::DateMismatch {
                external,
                slot: i as usize,
                day_gap: day_gap(day, pool[i]) as i64,
            },
        ) by {
            let wanted = MatchOutcome::DateMismatch {
                external,
                slot: i as usize,
                day_gap: day_gap(day, pool[i]) as i64,
            };
            if i < end - 1 {
                let at = choose|at: int| 0 <= at < before.len() && before[at] == wanted;
                assert(all[at] == wanted);
            } else {
                assert(all[all.len() - 1] == wanted);
            }
        }
    }
}

/// Every outcome of one step is borne out, given that the pool holds the
/// records of `start` and that the external record stands at `external`.
proof fn lemma_step_borne_out(
    externals: Seq<ExternalRecord>,
    start: Seq<Slot>,
    pool: Seq<Slot>,
    external: usize,
    window: Window,
)
    requires
        external < externals.len(),
        pool.len() == start.len() <= usize::MAX,
        forall|i: int| 0 <= i < pool.len() ==> (#[trigger] pool[i]).record == start[i].record,
    ensures
        ({
            let record = externals[external as int];
            let reported = step_outcomes(
                pool,
                external,
                record.signed_units(),
                record.timestamp.date.day_count(),
                window,
            );
            forall|j: int|
                0 <= j < reported.len() ==> borne_out(
                    #[trigger] reported[j],
                    externals,
                    start,
                    window,
                )
        }),
{
    let record = externals[external as int];
    let amount = record.signed_units();
    let day = record.timestamp.date.day_count();
    let reported = step_outcomes(pool, external, amount, day, window);
    if amount != 0 {
        let end = match first_match(pool, amount, day, window) {
            Some(found) => found,
            None => pool.len() as int,
        };
        if first_match(pool, amount, day, window) is Some {
            assert(is_first_match(pool, amount, day, window, end));
        }
        lemma_mismatches_describe(pool, external, amount, day, window, end);
        let passed = mismatches(pool, external, amount, day, window, end);
        assert forall|j: int| 0 <= j < reported.len() implies borne_out(
            #[trigger] reported[j],
            externals,
            start,
            window,
        ) by {
            if j < passed.len() {
                assert(reported[j] == passed[j]);
            }
        }
    }
}

proof fn lemma_run_borne_out(
    externals: Seq<ExternalRecord>,
    pool: Seq<Slot>,
    policy: Policy,
    count: nat,
)
    requires
        count <= externals.len() <= usize::MAX,
        pool.len() <= usize::MAX,
    ensures
        forall|j: int|
            0 <= j < run(externals, pool, policy, count).outcomes.len() ==> borne_out(
                #[trigger] run(externals, pool, policy, count).outcomes[j],
                externals,
                pool,
                policy.window,
            ),
    decreases count,
{
    if count > 0 {
        let before = run(externals, pool, policy, (count - 1) as nat);
        lemma_run_borne_out(externals, pool, policy, (count - 1) as nat);
        lemma_run_conserves(externals, pool, policy, (count - 1) as nat);
        if !before.halted {
            lemma_step_borne_out(
                externals,
                pool,
                before.pool,
                (count - 1) as usize,
                policy.window,
            );
        }
    }
}

/// Every outcome of a run is borne out by the records it names.
pub proof fn law_outcomes_borne_out(
    externals: Seq<ExternalRecord>,
    pool: Seq<Slot>,
    policy: Policy,
)
    requires
        externals.len() <= usize::MAX,
        pool.len() <= usize::MAX,
    ensures
        forall|j: int|
            0 <= j < run(externals, pool, policy, externals.len()).outcomes.len() ==> borne_out(
                #[trigger] run(externals, pool, policy, externals.len()).outcomes[j],
                externals,
                pool,
                policy.window,
            ),
{
    lemma_run_borne_out(externals, pool, policy, externals.len());
}

/// Equal amounts. A run never pairs an external record with a ledger
/// record of another amount, however small the difference.
pub proof fn law_matched_amounts_agree(
    externals: Seq<ExternalRecord>,
    pool: Seq<Slot>,
    policy: Policy,
    j: int,
)
    requires
        externals.len() <= usize::MAX,
        pool.len() <= usize::MAX,
        0 <= j < run(externals, pool, policy, externals.len()).outcomes.len(),
        run(externals, pool, policy, externals.len()).outcomes[j] is Matched,
    ensures
        ({
            let outcome = run(externals, pool, policy, externals.len()).outcomes[j];
            &&& outcome matches MatchOutcome::Matched { external, slot }
            &&& external < externals.len()
            &&& slot < pool.len()
            &&& pool[slot as int].record.amount@ == externals[external as int].signed_units()
        }),
{
    law_outcomes_borne_out(externals, pool, policy);
}

/// Zero amounts. An external record that moves nothing is reported as a
/// zero amount and in no other way: no match, no mismatch and no failure
/// to match names it.
pub proof fn law_zero_amounts_are_skipped(
    externals: Seq<ExternalRecord>,
    pool: Seq<Slot>,
    policy: Policy,
    j: int,
)
    requires
        externals.len() <= usize::MAX,
        pool.len() <= usize::MAX,
        0 <= j < run(externals, pool, policy, externals.len()).outcomes.len(),
    ensures
        ({
            let outcome = run(externals, pool, policy, externals.len()).outcomes[j];
            &&& outcome.named_external() < externals.len()
            &&& externals[outcome.named_external() as int].signed_units() == 0
                <==> outcome is ZeroAmount
        }),
{
    law_outcomes_borne_out(externals, pool, policy);
}

/// The edges of the window. A window that is not empty admits both its
/// bounds, and nothing one day beyond either.
pub proof fn law_window_admits_its_edges(window: Window)
    requires
        window.min_days <= window.max_days,
    ensures
        window.admits(window.min_days as int),
        window.admits(window.max_days as int),
        !window.admits(window.min_days - 1),
        !window.admits(window.max_days + 1),
{
}

/// The edges of the window. Take a non-empty window and an available
/// ledger record of the external record's amount, before which no slot
/// qualifies. If its day difference is exactly the window's lower or upper
/// bound, it is the match. If it lies one day beyond either bound, it is
/// not: it is reported as a date mismatch with that difference.
pub proof fn law_window_edges(
    pool: Seq<Slot>,
    external: usize,
    amount: int,
    day: i32,
    window: Window,
    i: int,
)
    requires
        0 <= i < pool.len() <= usize::MAX,
        amount != 0,
        is_candidate(pool[i], amount),
        window.min_days <= window.max_days,
        forall|j: int| 0 <= j < i ==> !qualifies(#[trigger] pool[j], amount, day, window),
    ensures
        ({
            let gap = day_gap(day, pool[i]);
            let reported = step_outcomes(pool, external, amount, day, window);
            let matched = MatchOutcome::Matched { external, slot: i as usize };
            &&& gap == window.min_days || gap == window.max_days ==> {
                &&& qualifies(pool[i], amount, day, window)
                &&& reported.last() == matched
            }
            &&& gap == window.min_days - 1 || gap == window.max_days + 1 ==> {
                &&& !qualifies(pool[i], amount, day, window)
                &&& !reported.contains(matched)
                &&& reported.contains(
                    MatchOutcome::DateMismatch { external, slot: i as usize, day_gap: gap as i64 },
                )
            }
        }),
{
    let gap = day_gap(day, pool[i]);
    let reported = step_outcomes(pool, external, amount, day, window);
    let matched = MatchOutcome::Matched { external, slot: i as usize };
    if qualifies(pool[i], amount, day, window) {
        assert(is_first_match(pool, amount, day, window, i));
        lemma_first_match_is(pool, amount, day, window, i);
    } else {
        let end = match first_match(pool, amount, day, window) {
            Some(found) => found,
            None => pool.len() as int,
        };
        if first_match(pool, amount, day, window) is Some {
            assert(is_first_match(pool, amount, day, window, end));
        }
        assert(i < end);
        lemma_mismatches_describe(pool, external, amount, day, window, end);
        let passed = mismatches(pool, external, amount, day, window, end);
        let wanted = MatchOutcome::DateMismatch { external, slot: i as usize, day_gap: gap as i64 };
        let at = choose|at: int| 0 <= at < passed.len() && passed[at] == wanted;
        assert(reported[at] == wanted);
        assert forall|j: int| 0 <= j < reported.len() implies reported[j] != matched by {
            if j < passed.len() {
                assert(reported[j] == passed[j]);
            }
        }
    }
}

/// Whether an external record moves anything.
pub open spec fn moves(record: ExternalRecord) -> bool {
    record.signed_units() != 0
}

/// Running totals. The totals over any records are the totals over those
/// among them that move something: a record of amount zero changes no
/// total.
pub proof fn law_totals_count_moving_records(records: Seq<ExternalRecord>)
    ensures
        total_of(records) == total_of(records.filter(|record: ExternalRecord| moves(record))),
        inflow_of(records) == inflow_of(records.filter(|record: ExternalRecord| moves(record))),
        outflow_of(records) == outflow_of(records.filter(|record: ExternalRecord| moves(record))),
    decreases records.len(),
{
    reveal(Seq::filter);
    let moving = |record: ExternalRecord| moves(record);
    if records.len() > 0 {
        law_totals_count_moving_records(records.drop_last());
        let before = records.drop_last().filter(moving);
        if moves(records.last()) {
            assert(records.filter(moving) == before.push(records.last()));
            assert(before.push(records.last()).drop_last() == before);
        } else {
            assert(records.filter(moving) == before);
        }
    }
}

/// Running totals. After one more record the total is the total before
/// plus the record's signed amount, and a record of amount zero leaves all
/// three totals as they were.
pub proof fn law_totals_step(records: Seq<ExternalRecord>, next: ExternalRecord)
    ensures
        total_of(records.push(next)) == total_of(records) + next.signed_units(),
        !moves(next) ==> {
            &&& total_of(records.push(next)) == total_of(records)
            &&& inflow_of(records.push(next)) == inflow_of(records)
            &&& outflow_of(records.push(next)) == outflow_of(records)
        },
{
    assert(records.push(next).drop_last() == records);
}

} // verus!
