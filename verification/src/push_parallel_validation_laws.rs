//! What holds of every parallel validation: of what tasks may cost, which of them run together, and
//! which wait for which.

use crate::clock::Timestamp;
use crate::push_pack_validation::{
    PushPackEntryKind, PushPackIndexRow, PushPackValidationControl, PushPackValidationObservation,
};
use crate::push_parallel_validation::{
    base_at, bases_held, contract_broken, cost_fault, dependency_fits, dependents, depth_handed,
    first_cost_fault, faulty_at, graph_resolved, handed_indices, index_work, interrupted,
    law_wave_keeps_bounds, lowest_rejection, mapped_error, may_run, most_bytes, most_kept,
    most_tasks, output_returned, preflight_fault, ready_index, ready_sorted, results_match,
    retained_bytes, rows_distinct, run_bounds, run_complete, runs_alone, scheduler_bytes, tags,
    tasks_charge, task_sound, topological, unresolvable, untimely, wave_charge, wave_fits,
    wave_from, wave_indices, wave_of, wave_ranges, wave_retained, wave_sound, wave_work,
    waves_sound, base_awaited, CachedBase, ParallelValidationByteCost, ParallelValidationCost,
    ParallelValidationDependency, ParallelValidationError, ParallelValidationExecutorError,
    ParallelValidationLimits, ParallelValidationReport, ParallelValidationTask,
    ParallelValidationTaskFailure, ParallelValidationTaskResult, ParallelValidationWork, WaveBounds,
};
use vstd::prelude::*;

verus! {

/// A task with a known cost is charged for all five of its parts; one with an unknown cost, for the
/// most that it may take. The metadata that stays and the bytes of the result are bounded likewise.
pub proof fn law_tasks_are_charged_for_all_parts(cost: ParallelValidationByteCost, bound: u64)
    ensures
        ParallelValidationCost::Known(cost).charge() - cost.compressed_input - cost.base
            - cost.instructions - cost.result == cost.structural_metadata,
        (ParallelValidationCost::Unknown { hard_upper_bound: bound }).charge() == bound,
        ParallelValidationCost::Known(cost).kept() == cost.structural_metadata,
        (ParallelValidationCost::Unknown { hard_upper_bound: bound }).kept() == bound,
        ParallelValidationCost::Known(cost).spec_result_bytes() == cost.result,
        (ParallelValidationCost::Unknown { hard_upper_bound: bound }).spec_result_bytes() == bound,
{
}

/// A cost is usable exactly where it is something, fits 64 bits and is at most what one task may
/// take; one that is too much for a task alone is told so.
pub proof fn law_usable_costs(cost: ParallelValidationCost, hard_task_bytes: u64)
    ensures
        cost_fault(cost, hard_task_bytes) is None <==> 0 < cost.charge() <= hard_task_bytes,
        cost_fault(cost, hard_task_bytes) == Some(ParallelValidationError::InvalidCost) <==> (
        cost.charge() == 0 || cost.charge() > u64::MAX),
        cost_fault(cost, hard_task_bytes) == Some(ParallelValidationError::TaskTooLarge) <==> (
        hard_task_bytes < cost.charge() <= u64::MAX),
        cost_fault(cost, hard_task_bytes) matches Some(error) ==> error is InvalidCost
            || error is TaskTooLarge,
{
}

/// Some cost is refused exactly where one is not usable, and the one that is told of is the first.
pub proof fn law_first_unusable_cost_is_told(
    costs: Seq<ParallelValidationCost>,
    hard_task_bytes: u64,
    left: ParallelValidationError,
    right: ParallelValidationError,
)
    ensures
        (forall|i: int| 0 <= i < costs.len() ==> 0 < (#[trigger] costs[i]).charge()
            <= hard_task_bytes) ==> !first_cost_fault(costs, hard_task_bytes, left),
        first_cost_fault(costs, hard_task_bytes, left) && first_cost_fault(
            costs,
            hard_task_bytes,
            right,
        ) ==> left == right,
{
    if forall|i: int| 0 <= i < costs.len() ==> 0 < (#[trigger] costs[i]).charge() <= hard_task_bytes {
        if first_cost_fault(costs, hard_task_bytes, left) {
            let at = choose|at: int| #[trigger] faulty_at(costs, hard_task_bytes, left, at);
            assert(0 < costs[at].charge() <= hard_task_bytes);
        }
    }
    if first_cost_fault(costs, hard_task_bytes, left) && first_cost_fault(
        costs,
        hard_task_bytes,
        right,
    ) {
        let a = choose|at: int| #[trigger] faulty_at(costs, hard_task_bytes, left, at);
        let b = choose|at: int| #[trigger] faulty_at(costs, hard_task_bytes, right, at);
        if a < b {
            assert(cost_fault(costs[a], hard_task_bytes) is None);
        } else if b < a {
            assert(cost_fault(costs[b], hard_task_bytes) is None);
        }
    }
}

/// Bookkeeping grows by the same amount with every row and with every worker, and by what a cost
/// keeps.
pub proof fn law_bookkeeping_is_by_row_and_worker<B, M>(
    rows: int,
    costs: Seq<ParallelValidationCost>,
    cost: ParallelValidationCost,
    workers: int,
)
    ensures
        scheduler_bytes::<B, M>(rows + 1, costs, workers) - scheduler_bytes::<B, M>(
            rows,
            costs,
            workers,
        ) == 512 + vstd::layout::size_of::<ParallelValidationDependency>()
            + vstd::layout::size_of::<Option<M>>() + vstd::layout::size_of::<CachedBase<B>>(),
        scheduler_bytes::<B, M>(rows, costs, workers + 1) - scheduler_bytes::<B, M>(
            rows,
            costs,
            workers,
        ) == 256 + vstd::layout::size_of::<ParallelValidationTask<B>>() + vstd::layout::size_of::<
            ParallelValidationTaskResult<B, M>,
        >(),
        scheduler_bytes::<B, M>(rows, costs.push(cost), workers) - scheduler_bytes::<B, M>(
            rows,
            costs,
            workers,
        ) == cost.kept(),
        scheduler_bytes::<B, M>(0, Seq::empty(), 0) == 0,
{
    let row = 512 + vstd::layout::size_of::<ParallelValidationDependency>() as int
        + vstd::layout::size_of::<Option<M>>() as int + vstd::layout::size_of::<
        CachedBase<B>,
    >() as int;
    let worker = 256 + vstd::layout::size_of::<ParallelValidationTask<B>>() as int
        + vstd::layout::size_of::<ParallelValidationTaskResult<B, M>>() as int;
    assert((rows + 1) * row == rows * row + row) by (nonlinear_arith);
    assert((workers + 1) * worker == workers * worker + worker) by (nonlinear_arith);
    assert(0 * row == 0 && 0 * worker == 0) by (nonlinear_arith);
    assert(costs.push(cost).drop_last() =~= costs);
}

/// Limits may be used exactly where those of the push may, no more ranges are read at once than
/// workers run, no more workers run than allowed, no size is zero or above its limit, and the run
/// ends after it starts and in time.
pub proof fn law_usable_parallel_limits(limits: ParallelValidationLimits)
    ensures
        limits.valid() <==> (limits.receive.fault() is None && 1 <= limits.range_concurrency
            && limits.range_concurrency <= limits.worker_count && limits.worker_count
            <= limits.receive.worker_count && 1 <= limits.wave_bytes
            <= limits.receive.bytes_in_flight && 1 <= limits.hard_task_bytes
            <= limits.receive.bytes_in_flight && 1 <= limits.base_cache_bytes
            <= limits.receive.max_delta_base_memory_bytes && 0 < limits.deadline.unix_nanos
            - limits.started_at.unix_nanos <= limits.receive.max_duration.nanos),
        run_bounds(limits).worker_count == limits.worker_count,
        run_bounds(limits).range_concurrency == limits.range_concurrency,
        run_bounds(limits).wave_bytes == limits.wave_bytes,
        run_bounds(limits).available_bytes == limits.receive.bytes_in_flight,
{
}

/// A run is refused before anything is observed exactly where its limits are unusable, costs and
/// rows are not one to one, there are too many rows, or the bookkeeping does not fit.
pub proof fn law_usable_runs<B, M>(
    rows: Seq<PushPackIndexRow>,
    costs: Seq<ParallelValidationCost>,
    limits: ParallelValidationLimits,
)
    ensures
        preflight_fault::<B, M>(rows, costs, limits) is None <==> (limits.valid() && costs.len()
            == rows.len() && rows.len() <= limits.receive.max_objects && scheduler_bytes::<B, M>(
            rows.len() as int,
            costs,
            limits.worker_count as int,
        ) <= limits.receive.max_metadata_memory_bytes),
        preflight_fault::<B, M>(rows, costs, limits) == Some(ParallelValidationError::InvalidLimits)
            <==> !limits.valid(),
        preflight_fault::<B, M>(rows, costs, limits) == Some(ParallelValidationError::InvalidCost)
            ==> costs.len() != rows.len() || rows.len() > limits.receive.max_objects,
        preflight_fault::<B, M>(rows, costs, limits) == Some(
            ParallelValidationError::SchedulerMemory,
        ) ==> costs.len() == rows.len(),
        preflight_fault::<B, M>(rows, costs, limits) matches Some(error) ==> error is InvalidLimits
            || error is InvalidCost || error is SchedulerMemory,
{
}

/// An executor's failure is told without loss.
pub proof fn law_executor_failures_are_told_apart(
    left: ParallelValidationExecutorError,
    right: ParallelValidationExecutorError,
)
    ensures
        mapped_error(left) == mapped_error(right) ==> left == right,
        mapped_error(left) is Cancelled <==> left is Cancelled,
        mapped_error(left) is Deadline <==> left is Deadline,
        mapped_error(left) is Executor <==> left is Backend,
{
}

/// An entry that is stored in full waits for nothing; an offset delta waits for the entry before it
/// at its base's offset; a delta by identity, for the entry with that identity, or, where its base
/// is outside, for nothing here: then no entry has that identity. Each entry waits for one thing
/// only.
pub proof fn law_entries_wait_for_their_bases(
    rows: Seq<PushPackIndexRow>,
    i: int,
    dependency: ParallelValidationDependency,
    other: ParallelValidationDependency,
)
    requires
        rows_distinct(rows),
        0 <= i < rows.len(),
        dependency_fits(rows, i, dependency),
    ensures
        dependency_fits(rows, i, other) ==> other == dependency,
        rows[i].representation is Direct <==> dependency is Direct,
        rows[i].representation matches PushPackEntryKind::OfsDelta { base_offset, .. } ==> {
            &&& dependency.spec_base() matches Some(base)
            &&& base < i
            &&& rows[base as int].entry.offset == base_offset
            &&& base_offset < rows[i].entry.offset
        },
        rows[i].representation matches PushPackEntryKind::RefDelta { base_oid, external } ==> {
            if external {
                &&& dependency.spec_base() is None
                &&& dependency == (ParallelValidationDependency::ExternalRefDelta { base_oid })
                &&& forall|j: int| 0 <= j < rows.len() ==> (#[trigger] rows[j]).oid != base_oid
            } else {
                &&& dependency.spec_base() matches Some(base)
                &&& base < rows.len()
                &&& rows[base as int].oid == base_oid
            }
        },
{
    if dependency_fits(rows, i, other) {
        match rows[i].representation {
            PushPackEntryKind::Direct => {},
            PushPackEntryKind::OfsDelta { base_offset, .. } => {
                let a = dependency->OfsDelta_base_index as int;
                let b = other->OfsDelta_base_index as int;
                if a < b {
                    assert(rows[a].entry.offset != rows[b].entry.offset);
                } else if b < a {
                    assert(rows[b].entry.offset != rows[a].entry.offset);
                }
            },
            PushPackEntryKind::RefDelta { base_oid, external } => {
                if !external {
                    let a = dependency->InternalRefDelta_base_index as int;
                    let b = other->InternalRefDelta_base_index as int;
                    if a < b {
                        assert(rows[a].oid != rows[b].oid);
                    } else if b < a {
                        assert(rows[b].oid != rows[a].oid);
                    }
                }
            },
        }
    }
}

/// An entry cannot be resolved exactly where its base is missing: no entry before it starts at the
/// base's offset, no entry has the base's identity, or one has it though the base is said to be
/// outside. Entries that are stored in full always can.
pub proof fn law_entries_with_a_base_are_resolved(rows: Seq<PushPackIndexRow>, i: int)
    requires
        0 <= i < rows.len(),
        rows.len() <= usize::MAX,
    ensures
        unresolvable(rows, i) <==> match rows[i].representation {
            PushPackEntryKind::Direct => false,
            PushPackEntryKind::OfsDelta { base_offset, .. } => !(base_offset < rows[i].entry.offset
                && exists|j: int| 0 <= j < i && (#[trigger] rows[j]).entry.offset == base_offset),
            PushPackEntryKind::RefDelta { base_oid, external } => external == exists|j: int|
                0 <= j < rows.len() && (#[trigger] rows[j]).oid == base_oid,
        },
{
    match rows[i].representation {
        PushPackEntryKind::Direct => {
            assert(dependency_fits(rows, i, ParallelValidationDependency::Direct));
        },
        PushPackEntryKind::OfsDelta { base_offset, .. } => {
            if base_offset < rows[i].entry.offset && exists|j: int|
                0 <= j < i && (#[trigger] rows[j]).entry.offset == base_offset {
                let j = choose|j: int| 0 <= j < i && (#[trigger] rows[j]).entry.offset == base_offset;
                assert(dependency_fits(
                    rows,
                    i,
                    ParallelValidationDependency::OfsDelta { base_index: j as usize },
                ));
            }
        },
        PushPackEntryKind::RefDelta { base_oid, external } => {
            if exists|j: int| 0 <= j < rows.len() && (#[trigger] rows[j]).oid == base_oid {
                let j = choose|j: int| 0 <= j < rows.len() && (#[trigger] rows[j]).oid == base_oid;
                if !external {
                    assert(dependency_fits(
                        rows,
                        i,
                        ParallelValidationDependency::InternalRefDelta { base_index: j as usize },
                    ));
                }
            } else if external {
                assert(dependency_fits(
                    rows,
                    i,
                    ParallelValidationDependency::ExternalRefDelta { base_oid },
                ));
            }
        },
    }
}

/// Rows are distinct exactly where any two of them differ both in offset and in identity.
pub proof fn law_distinct_rows_differ_in_both(rows: Seq<PushPackIndexRow>)
    ensures
        rows_distinct(rows) <==> forall|i: int, j: int|
            #![trigger rows[i], rows[j]]
            0 <= i < rows.len() && 0 <= j < rows.len() && (rows[i].entry.offset
                == rows[j].entry.offset || rows[i].oid == rows[j].oid) ==> i == j,
{
    if rows_distinct(rows) {
        assert forall|i: int, j: int|
            #![trigger rows[i], rows[j]]
            0 <= i < rows.len() && 0 <= j < rows.len() && (rows[i].entry.offset
                == rows[j].entry.offset || rows[i].oid == rows[j].oid) implies i == j by {
            if i < j {
                assert(rows[i].oid != rows[j].oid);
            } else if j < i {
                assert(rows[j].oid != rows[i].oid);
            }
        }
    }
}

/// The entries that wait for one entry are exactly those whose base it is, each once and in order.
pub proof fn law_dependents_are_those_with_the_base(
    dependencies: Seq<ParallelValidationDependency>,
    base: int,
    count: int,
)
    requires
        0 <= count <= dependencies.len() <= usize::MAX,
    ensures
        forall|j: usize| #[trigger]
            dependents(dependencies, base, count).contains(j) <==> (j < count
                && dependencies[j as int].spec_base() is Some
                && dependencies[j as int].spec_base()->0 == base),
        forall|a: int, b: int|
            #![trigger dependents(dependencies, base, count)[a], dependents(dependencies, base, count)[b]]
            0 <= a < b < dependents(dependencies, base, count).len() ==> dependents(
                dependencies,
                base,
                count,
            )[a] < dependents(dependencies, base, count)[b],
    decreases count,
{
    if count > 0 {
        law_dependents_are_those_with_the_base(dependencies, base, count - 1);
        let before = dependents(dependencies, base, count - 1);
        let after = dependents(dependencies, base, count);
        assert forall|j: usize| #[trigger] after.contains(j) <==> (j < count
            && dependencies[j as int].spec_base() is Some && dependencies[j as int].spec_base()->0
            == base) by {
            if before.contains(j) {
                let k = choose|k: int| 0 <= k < before.len() && before[k] == j;
                assert(after[k] == j);
            }
            if after.contains(j) {
                let k = choose|k: int| 0 <= k < after.len() && after[k] == j;
                if k < before.len() {
                    assert(before[k] == j);
                }
            }
            if j == count - 1 && dependencies[j as int].spec_base() is Some
                && dependencies[j as int].spec_base()->0 == base {
                assert(after[before.len() as int] == j);
            }
        }
        assert forall|a: int, b: int|
            #![trigger after[a], after[b]]
            0 <= a < b < after.len() implies after[a] < after[b] by {
            if b < before.len() {
                assert(before[a] < before[b]);
            } else {
                assert(before.contains(before[a]));
            }
        }
    }
}

/// A task must run alone exactly where what it takes is not known, or is more than tasks may share.
pub proof fn law_lonely_tasks(cost: ParallelValidationCost, wave_bytes: u64)
    ensures
        !runs_alone(cost, wave_bytes) <==> (cost is Known && cost.charge() <= wave_bytes),
{
}

/// Tasks of one wave are ready, at most as many as workers, charged together at most what is
/// available, and read no more ranges at once than allowed. Together they are charged at most what
/// tasks may share, unless there is but one; and a task that must run alone does.
pub proof fn law_wave_is_within_all_bounds(
    ready: Seq<(u64, usize)>,
    costs: Seq<ParallelValidationCost>,
    dependencies: Seq<ParallelValidationDependency>,
    bounds: WaveBounds,
)
    requires
        ready_sorted(ready),
        bounds.worker_count > 0,
        bounds.range_concurrency > 0,
    ensures
        ({
            let wave = wave_of(ready, costs, dependencies, bounds);
            &&& wave.len() <= bounds.worker_count
            &&& wave.no_duplicates()
            &&& wave_charge(wave, costs) <= bounds.available_bytes
            &&& wave_ranges(wave, dependencies) <= bounds.range_concurrency
            &&& wave.len() > 1 ==> wave_charge(wave, costs) <= bounds.wave_bytes
            &&& wave.len() > 1 ==> forall|k: int|
                0 <= k < wave.len() ==> costs[#[trigger] wave[k] as int] is Known
                    && costs[wave[k] as int].charge() <= bounds.wave_bytes
            &&& forall|k: int|
                0 <= k < wave.len() ==> exists|j: int|
                    0 <= j < ready.len() && (#[trigger] ready[j]).1 == #[trigger] wave[k]
        }),
{
    law_wave_keeps_bounds(ready, costs, dependencies, bounds);
    let wave = wave_of(ready, costs, dependencies, bounds);
    assert forall|k: int| 0 <= k < wave.len() implies exists|j: int|
        0 <= j < ready.len() && (#[trigger] ready[j]).1 == #[trigger] wave[k] by {
        assert(ready_index(ready, wave[k]));
    }
    if wave.len() > 1 {
        assert forall|k: int| 0 <= k < wave.len() implies costs[#[trigger] wave[k] as int] is Known
            && costs[wave[k] as int].charge() <= bounds.wave_bytes by {
            if runs_alone(costs[wave[k] as int], bounds.wave_bytes) {
                assert(wave.len() == 1);
            }
        }
    }
}

/// The charge of a wave is that of its tasks together, and its ranges are its tasks with a base
/// outside.
pub proof fn law_wave_charges_add_up(
    wave: Seq<usize>,
    index: usize,
    costs: Seq<ParallelValidationCost>,
    dependencies: Seq<ParallelValidationDependency>,
)
    ensures
        wave_charge(Seq::empty(), costs) == 0,
        wave_ranges(Seq::empty(), dependencies) == 0,
        wave_charge(wave.push(index), costs) - wave_charge(wave, costs)
            == costs[index as int].charge(),
        dependencies[index as int] is ExternalRefDelta ==> wave_ranges(
            wave.push(index),
            dependencies,
        ) - wave_ranges(wave, dependencies) == 1,
        !(dependencies[index as int] is ExternalRefDelta) ==> wave_ranges(
            wave.push(index),
            dependencies,
        ) == wave_ranges(wave, dependencies),
{
    assert(wave.push(index).drop_last() =~= wave);
}

/// The tasks of a wave that begins with `selected` follow it, and those behind share the rest.
proof fn lemma_wave_goes_on(
    ready: Seq<(u64, usize)>,
    costs: Seq<ParallelValidationCost>,
    dependencies: Seq<ParallelValidationDependency>,
    bounds: WaveBounds,
    at: int,
    selected: Seq<usize>,
    admitted: int,
    ranges: int,
    k: int,
)
    requires
        0 <= at <= k < ready.len(),
        admitted == wave_charge(selected, costs),
        ranges == wave_ranges(selected, dependencies),
        forall|j: int|
            0 <= j < ready.len() ==> !runs_alone(
                costs[(#[trigger] ready[j]).1 as int],
                bounds.wave_bytes,
            ),
    ensures
        ({
            let wave = wave_from(
                ready,
                costs,
                dependencies,
                bounds,
                at,
                selected,
                admitted,
                ranges,
            );
            let index = ready[k].1;
            &&& selected.len() <= wave.len()
            &&& wave_charge(wave, costs) >= admitted
            &&& wave_ranges(wave, dependencies) >= ranges
            &&& forall|j: int| 0 <= j < selected.len() ==> wave[j] == #[trigger] selected[j]
            &&& wave.contains(index) || wave.len() >= bounds.worker_count || (
            dependencies[index as int] is ExternalRefDelta && wave_ranges(wave, dependencies)
                >= bounds.range_concurrency) || wave_charge(wave, costs)
                + costs[index as int].charge() > bounds.wave_bytes || wave_charge(wave, costs)
                + costs[index as int].charge() > bounds.available_bytes
        }),
    decreases ready.len() - at,
{
    let wave = wave_from(ready, costs, dependencies, bounds, at, selected, admitted, ranges);
    if selected.len() < bounds.worker_count {
        let index = ready[at].1;
        let charge = costs[index as int].charge();
        let external = dependencies[index as int] is ExternalRefDelta;
        assert(!runs_alone(costs[index as int], bounds.wave_bytes));
        let taken = !((external && ranges >= bounds.range_concurrency) || admitted + charge
            > bounds.wave_bytes || admitted + charge > bounds.available_bytes);
        let next = if taken {
            selected.push(index)
        } else {
            selected
        };
        let next_admitted = if taken {
            admitted + charge
        } else {
            admitted
        };
        let next_ranges = if taken && external {
            ranges + 1
        } else {
            ranges
        };
        assert(selected.push(index).drop_last() =~= selected);
        assert(charge >= 0);
        if at + 1 < ready.len() {
            let later = if k > at {
                k
            } else {
                at + 1
            };
            lemma_wave_goes_on(
                ready,
                costs,
                dependencies,
                bounds,
                at + 1,
                next,
                next_admitted,
                next_ranges,
                later,
            );
        } else {
            reveal_with_fuel(wave_from, 2);
            assert(wave == next);
        }
        assert forall|j: int| 0 <= j < selected.len() implies wave[j] == #[trigger] selected[j] by {
            assert(next[j] == selected[j]);
        }
        if k == at && taken {
            let place = selected.len() as int;
            assert(next[place] == index);
            assert(wave[place] == index);
        }
    }
}

/// Nobody waits without need: where no task must run alone, a ready task that is not in the wave
/// finds no worker left, no range left, or not enough bytes left beside the whole wave.
pub proof fn law_waves_take_all_that_fit(
    ready: Seq<(u64, usize)>,
    costs: Seq<ParallelValidationCost>,
    dependencies: Seq<ParallelValidationDependency>,
    bounds: WaveBounds,
    k: int,
)
    requires
        0 <= k < ready.len(),
        forall|j: int|
            0 <= j < ready.len() ==> costs[(#[trigger] ready[j]).1 as int] is Known
                && costs[ready[j].1 as int].charge() <= bounds.wave_bytes,
    ensures
        ({
            let wave = wave_of(ready, costs, dependencies, bounds);
            let index = ready[k].1;
            let left = wave_charge(wave, costs);
            wave.contains(index) || wave.len() >= bounds.worker_count || (
            dependencies[index as int] is ExternalRefDelta && wave_ranges(wave, dependencies)
                >= bounds.range_concurrency) || left + costs[index as int].charge()
                > bounds.wave_bytes || left + costs[index as int].charge() > bounds.available_bytes
        }),
{
    assert forall|j: int| 0 <= j < ready.len() implies !runs_alone(
        costs[(#[trigger] ready[j]).1 as int],
        bounds.wave_bytes,
    ) by {
        assert(costs[ready[j].1 as int] is Known);
    }
    lemma_wave_goes_on(ready, costs, dependencies, bounds, 0, Seq::empty(), 0, 0, k);
}

/// The first ready task is taken if it fits at all; and where it must run alone, the wave is that
/// task and nothing else.
pub proof fn law_first_ready_task_is_taken(
    ready: Seq<(u64, usize)>,
    costs: Seq<ParallelValidationCost>,
    dependencies: Seq<ParallelValidationDependency>,
    bounds: WaveBounds,
)
    requires
        ready.len() > 0,
        bounds.worker_count > 0,
        bounds.range_concurrency > 0,
        costs[ready[0].1 as int].charge() <= bounds.available_bytes,
    ensures
        ({
            let wave = wave_of(ready, costs, dependencies, bounds);
            &&& wave.len() > 0
            &&& wave[0] == ready[0].1
            &&& costs[ready[0].1 as int] is Unknown || costs[ready[0].1 as int].charge()
                > bounds.wave_bytes ==> wave.len() == 1
        }),
{
    let index = ready[0].1;
    if !runs_alone(costs[index as int], bounds.wave_bytes) {
        let external = dependencies[index as int] is ExternalRefDelta;
        let ranges: int = if external {
            1
        } else {
            0
        };
        assert(Seq::<usize>::empty().push(index) =~= seq![index]);
        lemma_first_stays(
            ready,
            costs,
            dependencies,
            bounds,
            1,
            seq![index],
            costs[index as int].charge(),
            ranges,
        );
    }
}

proof fn lemma_first_stays(
    ready: Seq<(u64, usize)>,
    costs: Seq<ParallelValidationCost>,
    dependencies: Seq<ParallelValidationDependency>,
    bounds: WaveBounds,
    at: int,
    selected: Seq<usize>,
    admitted: int,
    ranges: int,
)
    requires
        selected.len() > 0,
        0 <= at <= ready.len(),
    ensures
        ({
            let wave = wave_from(
                ready,
                costs,
                dependencies,
                bounds,
                at,
                selected,
                admitted,
                ranges,
            );
            wave.len() > 0 && wave[0] == selected[0]
        }),
    decreases ready.len() - at,
{
    if at < ready.len() && selected.len() < bounds.worker_count {
        let index = ready[at].1;
        let charge = costs[index as int].charge();
        let external = dependencies[index as int] is ExternalRefDelta;
        if !runs_alone(costs[index as int], bounds.wave_bytes) {
            if (external && ranges >= bounds.range_concurrency) || admitted + charge
                > bounds.wave_bytes || admitted + charge > bounds.available_bytes {
                lemma_first_stays(
                    ready,
                    costs,
                    dependencies,
                    bounds,
                    at + 1,
                    selected,
                    admitted,
                    ranges,
                );
            } else {
                lemma_first_stays(
                    ready,
                    costs,
                    dependencies,
                    bounds,
                    at + 1,
                    selected.push(index),
                    admitted + charge,
                    ranges + if external {
                        1int
                    } else {
                        0
                    },
                );
            }
        }
    }
}

/// What was handed over is what each wave handed over, in order.
pub proof fn law_handed_tasks_are_those_of_the_waves<B>(
    waves: Seq<Seq<ParallelValidationTask<B>>>,
    wave: Seq<ParallelValidationTask<B>>,
)
    ensures
        handed_indices(Seq::<Seq<ParallelValidationTask<B>>>::empty()).len() == 0,
        wave_indices(wave).len() == wave.len(),
        forall|k: int| 0 <= k < wave.len() ==> wave_indices(wave)[k] == (#[trigger] wave[k]).index,
        handed_indices(waves.push(wave)) == handed_indices(waves) + wave_indices(wave),
{
    assert(waves.push(wave).drop_last() =~= waves);
}

/// Every task of a sound run states its own entry, waits for what that entry waits for, and is
/// charged its cost. One with a base in the pack comes in a later wave than its base, and one step
/// deeper; one with a base outside is at depth one, and any other at depth zero. No chain is deeper
/// than allowed.
pub proof fn law_tasks_come_after_their_bases<B>(
    waves: Seq<Seq<ParallelValidationTask<B>>>,
    rows: Seq<PushPackIndexRow>,
    dependencies: Seq<ParallelValidationDependency>,
    costs: Seq<ParallelValidationCost>,
    limits: ParallelValidationLimits,
    w: int,
    k: int,
)
    requires
        waves_sound(waves, rows, dependencies, costs, limits),
        0 <= w < waves.len(),
        0 <= k < waves[w].len(),
    ensures
        ({
            let task = waves[w][k];
            &&& task.index < rows.len()
            &&& task.row == rows[task.index as int]
            &&& task.dependency == dependencies[task.index as int]
            &&& task.byte_limit == costs[task.index as int].charge()
            &&& task.expected_delta_depth <= limits.receive.max_delta_depth
            &&& task.dependency is Direct ==> task.base is None && task.expected_delta_depth == 0
            &&& task.dependency is ExternalRefDelta ==> task.base is None
                && task.expected_delta_depth == 1
            &&& (task.dependency.spec_base() matches Some(base) ==> task.base is Some && exists|
                v: int,
                j: int,
            |
                0 <= v < w && 0 <= j < waves[v].len() && (#[trigger] waves[v][j]).index == base
                    && waves[v][j].expected_delta_depth + 1 == task.expected_delta_depth)
        }),
{
    assert(wave_sound(waves.take(w), waves[w], rows, dependencies, costs, limits));
    let task = waves[w][k];
    assert(task_sound(waves.take(w), task, rows, dependencies, costs, limits));
    if task.dependency.spec_base() is Some {
        let base = task.dependency.spec_base()->0;
        let earlier = waves.take(w);
        assert(depth_handed(earlier, base, task.expected_delta_depth - 1));
        let (v, j) = choose|v: int, j: int|
            0 <= v < earlier.len() && 0 <= j < earlier[v].len() && (#[trigger] earlier[v][j]).index
                == base && earlier[v][j].expected_delta_depth == task.expected_delta_depth - 1;
        assert(waves[v][j] == earlier[v][j]);
    }
}

/// No wave of a sound run is empty, has more tasks than workers or takes more bytes than are in
/// flight; and no entry is handed over twice.
pub proof fn law_sound_waves_keep_their_bounds<B>(
    waves: Seq<Seq<ParallelValidationTask<B>>>,
    rows: Seq<PushPackIndexRow>,
    dependencies: Seq<ParallelValidationDependency>,
    costs: Seq<ParallelValidationCost>,
    limits: ParallelValidationLimits,
    w: int,
)
    requires
        waves_sound(waves, rows, dependencies, costs, limits),
        0 <= w < waves.len(),
    ensures
        0 < waves[w].len() <= limits.worker_count,
        wave_charge(wave_indices(waves[w]), costs) <= limits.receive.bytes_in_flight,
        wave_ranges(wave_indices(waves[w]), dependencies) <= limits.range_concurrency,
        waves[w].len() > 1 ==> wave_charge(wave_indices(waves[w]), costs) <= limits.wave_bytes,
        handed_indices(waves).no_duplicates(),
{
    assert(wave_sound(waves.take(w), waves[w], rows, dependencies, costs, limits));
    assert(wave_fits(wave_indices(waves[w]), costs, dependencies, run_bounds(limits)));
}

/// Most tasks of one wave are as many as some wave has, and no wave has more.
pub proof fn law_most_tasks_are_those_of_a_wave<B>(waves: Seq<Seq<ParallelValidationTask<B>>>)
    ensures
        forall|w: int| 0 <= w < waves.len() ==> (#[trigger] waves[w]).len() <= most_tasks(waves),
        waves.len() > 0 ==> exists|w: int|
            0 <= w < waves.len() && (#[trigger] waves[w]).len() == most_tasks(waves),
        waves.len() == 0 ==> most_tasks(waves) == 0,
    decreases waves.len(),
{
    if waves.len() > 0 {
        let front = waves.drop_last();
        law_most_tasks_are_those_of_a_wave(front);
        assert forall|w: int| 0 <= w < waves.len() implies (#[trigger] waves[w]).len()
            <= most_tasks(waves) by {
            if w < front.len() {
                assert(front[w].len() <= most_tasks(front));
            }
        }
        if most_tasks(front) > waves.last().len() {
            assert(front.len() > 0);
            let w = choose|w: int|
                0 <= w < front.len() && (#[trigger] front[w]).len() == most_tasks(front);
            assert(waves[w].len() == most_tasks(waves));
        } else {
            assert(waves[waves.len() - 1].len() == most_tasks(waves));
        }
    }
}

/// Most bytes of one wave are as many as some wave is charged, and no wave is charged more.
pub proof fn law_most_bytes_are_those_of_a_wave<B>(
    waves: Seq<Seq<ParallelValidationTask<B>>>,
    costs: Seq<ParallelValidationCost>,
)
    ensures
        forall|w: int|
            0 <= w < waves.len() ==> wave_charge(wave_indices(#[trigger] waves[w]), costs)
                <= most_bytes(waves, costs),
        most_bytes(waves, costs) != 0 ==> exists|w: int|
            0 <= w < waves.len() && wave_charge(wave_indices(#[trigger] waves[w]), costs)
                == most_bytes(waves, costs),
        waves.len() == 0 ==> most_bytes(waves, costs) == 0,
    decreases waves.len(),
{
    if waves.len() > 0 {
        let front = waves.drop_last();
        law_most_bytes_are_those_of_a_wave(front, costs);
        assert forall|w: int| 0 <= w < waves.len() implies wave_charge(
            wave_indices(#[trigger] waves[w]),
            costs,
        ) <= most_bytes(waves, costs) by {
            if w < front.len() {
                assert(wave_charge(wave_indices(front[w]), costs) <= most_bytes(front, costs));
            }
        }
        if most_bytes(waves, costs) != 0 {
            if most_bytes(front, costs) > wave_charge(wave_indices(waves.last()), costs) {
                let w = choose|w: int|
                    0 <= w < front.len() && wave_charge(wave_indices(#[trigger] front[w]), costs)
                        == most_bytes(front, costs);
                assert(wave_charge(wave_indices(waves[w]), costs) == most_bytes(waves, costs));
            } else {
                assert(wave_charge(wave_indices(waves[waves.len() - 1]), costs) == most_bytes(
                    waves,
                    costs,
                ));
            }
        }
    }
}

/// What is kept after the last wave is never more than the most that was kept, and that most only
/// grows.
pub proof fn law_most_kept_covers_the_last_wave<B, M>(
    dependencies: Seq<ParallelValidationDependency>,
    waves: Seq<Seq<ParallelValidationTask<B>>>,
    results: Seq<Seq<ParallelValidationTaskResult<B, M>>>,
)
    requires
        waves.len() > 0,
    ensures
        ({
            let now = bases_held(dependencies, waves, results, dependencies.len() as int);
            let before = most_kept(dependencies, waves.drop_last(), results.drop_last());
            let most = most_kept(dependencies, waves, results);
            &&& most >= now
            &&& most >= before
            &&& most == now || most == before
        }),
{
}

/// A result adds what it retains to its own entry and to no other; one that failed, or retains
/// nothing, adds nothing.
pub proof fn law_results_retain_for_their_entries<B, M>(
    results: Seq<ParallelValidationTaskResult<B, M>>,
    result: ParallelValidationTaskResult<B, M>,
    i: int,
)
    ensures
        wave_retained(Seq::<ParallelValidationTaskResult<B, M>>::empty(), i) == 0,
        result.index != i ==> wave_retained(results.push(result), i) == wave_retained(results, i),
        result.index == i && result.result is Err ==> wave_retained(results.push(result), i)
            == wave_retained(results, i),
        result.index == i && result.result is Ok && result.result->Ok_0.retained_base is None
            ==> wave_retained(results.push(result), i) == wave_retained(results, i),
        result.index == i && result.result is Ok && result.result->Ok_0.retained_base is Some
            ==> wave_retained(results.push(result), i) - wave_retained(results, i)
            == result.result->Ok_0.retained_base->0.bytes,
{
    assert(results.push(result).drop_last() =~= results);
}

/// What the waves retain for an entry adds up, and is kept exactly while somebody waits for the
/// entry.
pub proof fn law_bases_are_kept_while_awaited<B, M>(
    dependencies: Seq<ParallelValidationDependency>,
    waves: Seq<Seq<ParallelValidationTask<B>>>,
    results: Seq<Seq<ParallelValidationTaskResult<B, M>>>,
    wave: Seq<ParallelValidationTaskResult<B, M>>,
    i: int,
)
    ensures
        retained_bytes(results.push(wave), i) - retained_bytes(results, i) == wave_retained(wave, i),
        bases_held(dependencies, waves, results, 0) == 0,
        i >= 0 && base_awaited(dependencies, waves, i) ==> bases_held(
            dependencies,
            waves,
            results,
            i + 1,
        ) - bases_held(dependencies, waves, results, i) == retained_bytes(results, i),
        i >= 0 && !base_awaited(dependencies, waves, i) ==> bases_held(
            dependencies,
            waves,
            results,
            i + 1,
        ) == bases_held(dependencies, waves, results, i),
        dependencies.len() <= usize::MAX && (forall|j: usize|
            j < dependencies.len() ==> #[trigger] handed_indices(waves).contains(j))
            ==> !base_awaited(dependencies, waves, i),
{
    assert(results.push(wave).drop_last() =~= results);
    if dependencies.len() <= usize::MAX && forall|j: usize|
        j < dependencies.len() ==> #[trigger] handed_indices(waves).contains(j) {
        if base_awaited(dependencies, waves, i) {
            let j = choose|j: int|
                0 <= j < dependencies.len() && (#[trigger] base_at(dependencies, j)) is Some
                    && base_at(dependencies, j)->0 == i && !handed_indices(waves).contains(
                    j as usize,
                );
            assert(handed_indices(waves).contains(j as usize));
        }
    }
}

/// Results answer the tasks exactly where every index is answered as often as it was handed over.
pub proof fn law_results_answer_each_task<B, M>(
    results: Seq<ParallelValidationTaskResult<B, M>>,
    selected: Seq<usize>,
)
    ensures
        results_match(results, selected) <==> forall|index: usize|
            tags(results).to_multiset().count(index) == #[trigger] selected.to_multiset().count(
                index,
            ),
        tags(results).len() == results.len(),
        forall|r: int|
            0 <= r < results.len() ==> tags(results)[r] == (#[trigger] results[r]).index,
        results_match(results, selected) ==> results.len() == selected.len(),
{
    broadcast use vstd::seq_lib::group_to_multiset_ensures;

    if forall|index: usize|
        tags(results).to_multiset().count(index) == #[trigger] selected.to_multiset().count(index) {
        assert(tags(results).to_multiset() =~= selected.to_multiset());
    }
    if results_match(results, selected) {
        assert(tags(results).to_multiset().len() == tags(results).len());
        assert(selected.to_multiset().len() == selected.len());
    }
}

/// The rejection that is told of is one of the results, and none of a lower index was rejected.
pub proof fn law_lowest_rejection_is_told<B, M>(
    results: Seq<ParallelValidationTaskResult<B, M>>,
    index: usize,
    failure: ParallelValidationTaskFailure,
    r: int,
)
    requires
        lowest_rejection(results, index, failure),
        0 <= r < results.len(),
    ensures
        results[r].index < index ==> results[r].result is Ok,
        exists|k: int|
            0 <= k < results.len() && (#[trigger] results[k]).index == index
                && results[k].result is Err && results[k].result->Err_0 == failure,
{
}

/// An entry may run exactly where it was not handed over, and its base, if it has one, was.
pub proof fn law_entries_run_behind_their_bases<B>(
    waves: Seq<Seq<ParallelValidationTask<B>>>,
    dependencies: Seq<ParallelValidationDependency>,
    i: usize,
)
    ensures
        may_run(waves, dependencies, i) <==> (!handed_indices(waves).contains(i) && (
        dependencies[i as int].spec_base() is Some ==> handed_indices(waves).contains(
            dependencies[i as int].spec_base()->0,
        ))),
        dependencies[i as int] matches ParallelValidationDependency::OfsDelta { base_index }
            ==> base_at(dependencies, i as int) == Some(base_index),
        dependencies[i as int] matches ParallelValidationDependency::InternalRefDelta { base_index }
            ==> base_at(dependencies, i as int) == Some(base_index),
        dependencies[i as int] is Direct ==> base_at(dependencies, i as int) is None,
        dependencies[i as int] is ExternalRefDelta ==> base_at(dependencies, i as int) is None,
{
}

/// An order is topological exactly where it holds every entry once, and each entry's base comes
/// before it.
pub proof fn law_bases_come_first_in_order(
    dependencies: Seq<ParallelValidationDependency>,
    order: Seq<usize>,
    k: int,
)
    requires
        topological(dependencies, order),
        0 <= k < order.len(),
    ensures
        order.len() == dependencies.len(),
        order[k] < dependencies.len(),
        forall|j: int| 0 <= j < order.len() && j != k ==> #[trigger] order[j] != order[k],
        dependencies[order[k] as int].spec_base() matches Some(base) ==> exists|j: int|
            0 <= j < k && #[trigger] order[j] == base,
{
    if dependencies[order[k] as int].spec_base() is Some {
        let base = dependencies[order[k] as int].spec_base()->0;
        assert(base_at(dependencies, order[k] as int) == Some(base));
        assert(order.take(k).contains(base));
        let j = choose|j: int| 0 <= j < order.take(k).len() && order.take(k)[j] == base;
        assert(order[j] == base);
    }
}

/// A wave takes a unit for every byte that it is charged, and one where it is charged nothing.
pub proof fn law_waves_take_a_unit_for_each_byte<B>(
    tasks: Seq<ParallelValidationTask<B>>,
    costs: Seq<ParallelValidationCost>,
)
    ensures
        tasks_charge(tasks, costs) >= 1 || wave_charge(wave_indices(tasks), costs) > u64::MAX,
        0 < wave_charge(wave_indices(tasks), costs) <= u64::MAX ==> tasks_charge(tasks, costs)
            == wave_charge(wave_indices(tasks), costs),
        wave_charge(wave_indices(tasks), costs) == 0 ==> tasks_charge(tasks, costs) == 1,
{
    lemma_wave_charge_grows(wave_indices(tasks), costs);
}

proof fn lemma_wave_charge_grows(wave: Seq<usize>, costs: Seq<ParallelValidationCost>)
    ensures
        wave_charge(wave, costs) >= 0,
    decreases wave.len(),
{
    if wave.len() > 0 {
        lemma_wave_charge_grows(wave.drop_last(), costs);
    }
}

/// A run takes one unit, three for every row, and for every row at most a wave of its own: a unit
/// for each row, two more, and one for each byte in flight.
pub proof fn law_work_of_a_run_is_bounded(count: int, limits: ParallelValidationLimits)
    requires
        count >= 0,
    ensures
        index_work(0, limits) == 1,
        index_work(count, limits) == 1 + count * (count + limits.receive.bytes_in_flight + 5),
        wave_work(count, limits) - limits.receive.bytes_in_flight - 2 == count,
{
    let flight = limits.receive.bytes_in_flight as int;
    assert(3 * count + count * (count + 2 + flight) == count * (count + flight + 5))
        by (nonlinear_arith);
    assert(0 * wave_work(0, limits) == 0) by (nonlinear_arith);
}

/// A complete run has handed every entry over once, has a report of every entry in its own place,
/// and no entry of it shares an offset or an identity with another or costs too much.
pub proof fn law_complete_run_covers_every_entry<B, M>(
    rows: Seq<PushPackIndexRow>,
    costs: Seq<ParallelValidationCost>,
    limits: ParallelValidationLimits,
    waves: Seq<Seq<ParallelValidationTask<B>>>,
    results: Seq<Seq<ParallelValidationTaskResult<B, M>>>,
    report: ParallelValidationReport<M>,
    i: usize,
)
    requires
        run_complete(rows, costs, limits, waves, results, report),
        i < rows.len(),
    ensures
        handed_indices(waves).contains(i),
        handed_indices(waves).len() == rows.len(),
        limits.valid(),
        costs.len() == rows.len(),
        0 < costs[i as int].charge() <= limits.hard_task_bytes,
        report.metadata@.len() == rows.len(),
        exists|w: int, k: int|
            0 <= w < results.len() && 0 <= k < results[w].len() && (#[trigger] results[w][k]).index
                == i && results[w][k].result is Ok && results[w][k].result->Ok_0.metadata
                == report.metadata@[i as int],
        forall|j: int|
            0 <= j < rows.len() && j != i ==> (#[trigger] rows[j]).oid != rows[i as int].oid
                && rows[j].entry.offset != rows[i as int].entry.offset,
        report.waves == waves.len() == results.len(),
        report.peak_base_cache_bytes <= limits.base_cache_bytes,
{
    assert(output_returned(results, i as int, report.metadata@[i as int]));
    assert(cost_fault(costs[i as int], limits.hard_task_bytes) is None);
    law_distinct_rows_differ_in_both(rows);
    assert forall|j: int| 0 <= j < rows.len() && j != i implies (#[trigger] rows[j]).oid
        != rows[i as int].oid && rows[j].entry.offset != rows[i as int].entry.offset by {
        assert(rows[i as int] == rows[i as int]);
    }
}

/// A run is interrupted by a refused charge, a cancellation or an observation out of time, and by
/// nothing else.
pub proof fn law_validation_runs_in_time<C: PushPackValidationControl, W: ParallelValidationWork>(
    started_at: Timestamp,
    deadline: Timestamp,
    units: u64,
    error: ParallelValidationError,
    observation: PushPackValidationObservation,
)
    requires
        C::observes(observation),
    ensures
        observation.cancelled ==> interrupted::<C, W>(
            started_at,
            deadline,
            units,
            ParallelValidationError::Cancelled,
        ),
        observation.observed_at.unix_nanos >= deadline.unix_nanos
            || observation.observed_at.unix_nanos < started_at.unix_nanos ==> untimely::<C>(
            started_at,
            deadline,
            observation,
        ) && interrupted::<C, W>(started_at, deadline, units, ParallelValidationError::Deadline),
        W::answers(units, false) ==> interrupted::<C, W>(
            started_at,
            deadline,
            units,
            ParallelValidationError::WorkBudget,
        ),
        interrupted::<C, W>(started_at, deadline, units, error) ==> error is WorkBudget
            || error is Cancelled || error is Deadline,
        error is WorkBudget && !W::answers(units, false) ==> !interrupted::<C, W>(
            started_at,
            deadline,
            units,
            error,
        ),
{
}

/// The bases of a wave are refused exactly where one that is waited for retains nothing, no byte or
/// more than its result may take, or where all that is kept together is more than the cache holds.
pub proof fn law_kept_bases_fit_the_cache<B, M>(
    rows: Seq<PushPackIndexRow>,
    dependencies: Seq<ParallelValidationDependency>,
    costs: Seq<ParallelValidationCost>,
    limits: ParallelValidationLimits,
    waves: Seq<Seq<ParallelValidationTask<B>>>,
    results: Seq<Seq<ParallelValidationTaskResult<B, M>>>,
    r: int,
)
    requires
        !crate::push_parallel_validation::bases_refused(
            rows,
            dependencies,
            costs,
            limits,
            waves,
            results,
        ),
        0 <= r < results.last().len(),
    ensures
        bases_held(dependencies, waves, results, rows.len() as int) <= limits.base_cache_bytes,
        results.last()[r].result is Ok && dependents(
            dependencies,
            results.last()[r].index as int,
            rows.len() as int,
        ).len() > 0 ==> results.last()[r].result->Ok_0.retained_base is Some && 0
            < results.last()[r].result->Ok_0.retained_base->0.bytes
            <= costs[results.last()[r].index as int].spec_result_bytes(),
{
    let result = results.last()[r];
}

/// A wave's results keep to the contract exactly where they answer its tasks one by one and retain
/// nothing that nobody waits for.
pub proof fn law_results_keep_the_contract<B, M>(
    rows: Seq<PushPackIndexRow>,
    tasks: Seq<ParallelValidationTask<B>>,
    results: Seq<ParallelValidationTaskResult<B, M>>,
)
    ensures
        !contract_broken(rows, tasks, results) <==> (results_match(results, wave_indices(tasks))
            && forall|r: int|
            0 <= r < results.len() && (#[trigger] results[r]).result is Ok
                && results[r].result->Ok_0.retained_base is Some
                ==> !crate::push_parallel_validation::dependents_are(
                rows,
                results[r].index as int,
                0,
            )),
{
}

/// A result's depth is refused exactly where it is beyond the limit or not the one that its task
/// expects.
pub proof fn law_depths_are_the_expected_ones<B, M>(
    tasks: Seq<ParallelValidationTask<B>>,
    results: Seq<ParallelValidationTaskResult<B, M>>,
    max_depth: u32,
)
    ensures
        !crate::push_parallel_validation::depth_unexpected(tasks, results, max_depth)
            <==> forall|r: int, t: int|
            #![trigger results[r], tasks[t]]
            0 <= r < results.len() && 0 <= t < tasks.len() && results[r].result is Ok
                && results[r].index == tasks[t].index ==> results[r].result->Ok_0.delta_depth
                <= max_depth && results[r].result->Ok_0.delta_depth
                == tasks[t].expected_delta_depth,
{
    if !crate::push_parallel_validation::depth_unexpected(tasks, results, max_depth) {
        assert forall|r: int, t: int|
            #![trigger results[r], tasks[t]]
            0 <= r < results.len() && 0 <= t < tasks.len() && results[r].result is Ok
                && results[r].index == tasks[t].index implies results[r].result->Ok_0.delta_depth
            <= max_depth && results[r].result->Ok_0.delta_depth == tasks[t].expected_delta_depth by {
            let result = results[r];
            let task = tasks[t];
        }
    }
}

/// A chain is too deep where an entry's base was handed over at the greatest depth or beyond, and
/// only there.
pub proof fn law_chains_end_at_the_greatest_depth<B>(
    rows: Seq<PushPackIndexRow>,
    waves: Seq<Seq<ParallelValidationTask<B>>>,
    max_depth: u32,
    dependencies: Seq<ParallelValidationDependency>,
    i: int,
    depth: int,
)
    requires
        graph_resolved(rows, dependencies),
        0 <= i < rows.len(),
        base_at(dependencies, i) is Some,
        depth_handed(waves, base_at(dependencies, i)->0, depth),
        depth >= max_depth,
    ensures
        crate::push_parallel_validation::chain_too_deep(rows, waves, max_depth),
{
}

} // verus!
