//! What holds of every delta that is planned, and of every pack that is written by a plan.

use crate::delta_pack::{
    best_leads_to, best_of, candidate_leads_to, count_actions, delta_depth, delta_of, depths_before,
    entry_planned, entry_written, evicted, generated_plan, hint, input_usable, inputs_usable,
    kind_count, last_segment, law_window_stays_bounded, offsets_before, qualifies, report_of, saves,
    scan_units, shared_from, shared_prefix, similar, spec_path_score, text_len, thinned,
    trimmed_input, window_after, window_before, window_bytes, work_stopped, worth, Candidate,
    DeltaActionKind, DeltaEntryAction, DeltaFallbackReason, DeltaObjectInput, DeltaPackOptions,
    DeltaPackWriteReport, DeltaPlannedEntry, DeltaPlanningReport, GeneratedDeltaPlan,
};
use crate::object::{ObjectId, ObjectKind, StoredObject};
use crate::pack_entry_reuse::{PackEntryPlan, PackReuseCapabilities, StoredPackEntryKind};
use crate::pack_writer::{object_appended, PackObjectWriteReport};
use vstd::prelude::*;

verus! {

/// Planning options may be used exactly where every bound is positive and within its ceiling and
/// the allowed size is a fraction of at most one.
pub proof fn law_usable_planning_options(options: DeltaPackOptions)
    ensures
        options.valid() <==> {
            &&& 1 <= options.window <= 256
            &&& 1 <= options.max_candidate_comparisons <= 10_000_000
            &&& 1 <= options.max_depth <= 128
            &&& 1 <= options.max_retained_base_bytes <= 536_870_912
            &&& 1 <= options.max_instruction_bytes <= 67_108_864
            &&& 1 <= options.max_compressed_instruction_bytes <= 67_108_864
            &&& 1 <= options.max_path_hint_bytes <= 65_536
            &&& 1 <= options.max_expansion_numerator
            &&& options.max_expansion_numerator <= options.max_expansion_denominator
        },
{
}

/// Two byte sequences share exactly the bytes in which they agree up to the first that differs or to
/// the end of one.
pub proof fn law_shared_bytes_end_at_the_first_difference(left: Seq<u8>, right: Seq<u8>)
    ensures
        ({
            let n = shared_prefix(left, right);
            &&& 0 <= n <= left.len()
            &&& n <= right.len()
            &&& left.take(n) == right.take(n)
            &&& n == left.len() || n == right.len() || left[n] != right[n]
            &&& n == shared_prefix(right, left)
        }),
{
    lemma_shared_from(left, right, 0);
    lemma_shared_from(right, left, 0);
    let n = shared_prefix(left, right);
    let m = shared_prefix(right, left);
    assert(left.take(n) =~= right.take(n));
    if n < m {
        assert(left[n] == right[n]);
    }
    if m < n {
        assert(left[m] == right[m]);
    }
}

proof fn lemma_shared_from(left: Seq<u8>, right: Seq<u8>, at: int)
    requires
        0 <= at <= left.len(),
        at <= right.len(),
    ensures
        ({
            let n = shared_from(left, right, at);
            &&& at <= n <= left.len()
            &&& n <= right.len()
            &&& forall|i: int| at <= i < n ==> #[trigger] left[i] == right[i]
            &&& n == left.len() || n == right.len() || left[n] != right[n]
        }),
    decreases left.len() - at,
{
    if at < left.len() && at < right.len() && left[at] == right[at] {
        lemma_shared_from(left, right, at + 1);
    }
}

/// The name at the end of a path holds no slash and is all of the path, or all behind its last slash.
pub proof fn law_names_follow_the_last_slash(path: Seq<char>)
    ensures
        ({
            let name = last_segment(path);
            let start = path.len() - name.len();
            &&& 0 <= start
            &&& name == path.skip(start)
            &&& forall|i: int| 0 <= i < name.len() ==> #[trigger] name[i] != '/'
            &&& start == 0 || path[start - 1] == '/'
        }),
    decreases path.len(),
{
    if path.len() > 0 && path.last() != '/' {
        let front = path.drop_last();
        law_names_follow_the_last_slash(front);
        let name = last_segment(path);
        let start = path.len() - name.len();
        assert(name =~= path.skip(start));
        if start > 0 {
            assert(front[start - 1] == path[start - 1]);
        }
    } else {
        assert(last_segment(path) =~= path.skip(path.len() as int));
    }
}

/// Equal paths match best, then equal names, then nothing; a path that is missing or too long
/// matches nothing.
pub proof fn law_paths_match_by_name(target: Seq<char>, base: Seq<char>, maximum: int)
    ensures
        ({
            let usable = text_len(target) <= maximum && text_len(base) <= maximum;
            let score = spec_path_score(Some(target), Some(base), maximum);
            &&& usable && target == base ==> score == 2
            &&& usable && target != base && last_segment(target) == last_segment(base) ==> score
                == 1
            &&& usable && last_segment(target) != last_segment(base) ==> score == 0
            &&& !usable ==> score == 0
            &&& spec_path_score(None, Some(base), maximum) == 0
            &&& spec_path_score(Some(target), None, maximum) == 0
            &&& spec_path_score(None, None, maximum) == 0
        }),
{
}

/// A base is similar to a target exactly where it is another object of the kind, not empty and not
/// too large, and starts with the same sixteen bytes and the same half of the target.
pub proof fn law_similar_bases_share_half_the_target(
    target: DeltaObjectInput,
    base: DeltaPlannedEntry,
    options: DeltaPackOptions,
)
    ensures
        ({
            let a = base.object.data@;
            let b = target.object.data@;
            similar(target, base, options) <==> {
                &&& base.object.kind == target.object.kind
                &&& base.oid != target.oid
                &&& 1 <= a.len() <= options.max_retained_base_bytes
                &&& exists|n: int|
                    16 <= n <= a.len() && n <= b.len() && 2 * n >= b.len() && #[trigger] a.take(n)
                        == b.take(n)
            }
        }),
{
    let a = base.object.data@;
    let b = target.object.data@;
    let n = shared_prefix(a, b);
    law_shared_bytes_end_at_the_first_difference(a, b);
    if exists|m: int|
        16 <= m <= a.len() && m <= b.len() && 2 * m >= b.len() && #[trigger] a.take(m) == b.take(
            m,
        ) {
        let m = choose|m: int|
            16 <= m <= a.len() && m <= b.len() && 2 * m >= b.len() && #[trigger] a.take(m)
                == b.take(m);
        if n < m {
            assert(a.take(m)[n] == b.take(m)[n]);
        }
    }
    if n >= 16 && 2 * n >= b.len() {
        assert(a.take(n) == b.take(n));
    }
}

/// A delta is worth it exactly where it saves the least savings and stays within the allowed
/// fraction of the direct stream.
pub proof fn law_deltas_must_save(delta_size: int, direct_size: int, options: DeltaPackOptions)
    ensures
        worth(delta_size, direct_size, options) <==> delta_size + options.min_savings_bytes
            <= direct_size && delta_size * options.max_expansion_denominator <= direct_size
            * options.max_expansion_numerator,
{
}

/// A better path wins over everything, then a longer shared prefix, then a closer size, then the
/// lower identity, then the later place.
pub proof fn law_better_candidates(a: Candidate, b: Candidate)
    ensures
        a.path_score > b.path_score ==> a.spec_better(b),
        a.path_score == b.path_score && a.prefix > b.prefix ==> a.spec_better(b),
        a.path_score == b.path_score && a.prefix == b.prefix && a.size_difference
            < b.size_difference ==> a.spec_better(b),
        a.path_score == b.path_score && a.prefix == b.prefix && a.size_difference
            == b.size_difference && a.oid.spec_before(b.oid) ==> a.spec_better(b),
        a.path_score == b.path_score && a.prefix == b.prefix && a.size_difference
            == b.size_difference && a.oid == b.oid && a.index > b.index ==> a.spec_better(b),
        a.spec_better(b) ==> !b.spec_better(a),
{
}

/// A stored form that stands for its object is reused exactly where its chain is no deeper than
/// allowed; it is never searched for a delta.
pub proof fn law_stored_forms_are_reused(
    objects: Seq<DeltaObjectInput>,
    entries: Seq<DeltaPlannedEntry>,
    i: int,
    options: DeltaPackOptions,
)
    requires
        entry_planned(objects, entries, i, options),
    ensures
        entries[i].oid == objects[i].oid,
        entries[i].object == objects[i].object,
        objects[i].stored matches Some(stored) ==> {
            let depths = depths_before(entries, i);
            let depth: int = match stored.spec_kind() {
                StoredPackEntryKind::Direct(_) => 0,
                StoredPackEntryKind::RefDelta { base, .. } => if depths.dom().contains(base)
                    && depths[base] < 65_535 {
                    depths[base] + 1
                } else {
                    65_535
                },
                StoredPackEntryKind::OfsDelta { base, .. } => if depths.dom().contains(base)
                    && depths[base] < 65_535 {
                    depths[base] + 1
                } else {
                    65_535
                },
            };
            &&& depth <= options.max_depth ==> entries[i].action == DeltaEntryAction::Reuse(stored)
            &&& depth > options.max_depth ==> entries[i].action == DeltaEntryAction::Direct(
                DeltaFallbackReason::Depth,
            )
        },
        objects[i].stored is None ==> !(entries[i].action is Reuse),
        objects[i].stored is None && objects[i].object.data@.len() == 0 && !work_stopped(entries, i)
            ==> entries[i].action == DeltaEntryAction::Direct(DeltaFallbackReason::NoCandidate),
{
}

/// A generated delta has an earlier object of the same kind as its base, which shares at least
/// sixteen bytes and half of the target; it is one step deeper than that base, within the depth
/// allowed, and its instructions keep their bounds.
pub proof fn law_generated_deltas_rest_on_similar_bases(
    objects: Seq<DeltaObjectInput>,
    entries: Seq<DeltaPlannedEntry>,
    i: int,
    options: DeltaPackOptions,
)
    requires
        options.valid(),
        0 <= i < entries.len(),
        entries.len() <= usize::MAX,
        entry_planned(objects, entries, i, options),
        entries[i].action is Generated,
    ensures
        ({
            let delta = delta_of(entries[i]);
            let depths = depths_before(entries, i);
            &&& delta.spec_base_index() matches Some(b)
            &&& b < i
            &&& entries[b as int].oid == delta.spec_base()
            &&& entries[b as int].oid != entries[i].oid
            &&& entries[b as int].object.kind == entries[i].object.kind
            &&& delta.spec_result_kind() == entries[i].object.kind
            &&& delta.spec_result_size() == entries[i].object.data@.len()
            &&& exists|n: int|
                16 <= n <= entries[i].object.data@.len() && n <= entries[b as int].object.data@.len()
                    && 2 * n >= entries[i].object.data@.len()
                    && #[trigger] entries[b as int].object.data@.take(n)
                    == entries[i].object.data@.take(n)
            &&& 1 <= delta.spec_depth() <= options.max_depth
            &&& depths.dom().contains(delta.spec_base()) ==> delta.spec_depth()
                == depths[delta.spec_base()] + 1
            &&& delta.spec_compressed().len() <= options.max_compressed_instruction_bytes
        }),
{
    let input = trimmed_input(objects[i], options);
    let earlier = entries.take(i);
    let window = window_before(entries, i, options);
    let depths = depths_before(entries, i);
    let action = entries[i].action;
    assert(best_leads_to(action, input, earlier, window, depths, options));
    let best = choose|best: Candidate| #[trigger]
        best_of(Some(best), input, earlier, window, 0, depths, options) && candidate_leads_to(
            action,
            best,
            input,
            earlier,
            options,
        );
    let k = choose|k: int|
        0 <= k < window.len() && qualifies(
            best,
            input,
            earlier,
            (#[trigger] window[k]).0 as int,
            depths,
            options,
        );
    law_window_stays_bounded(entries, i, options);
    assert(window[k].0 < i);
    let b = best.index as int;
    assert(earlier[b] == entries[b]);
    let x = entries[b].object.data@;
    let y = entries[i].object.data@;
    law_similar_bases_share_half_the_target(input, entries[b], options);
    let n = choose|n: int|
        16 <= n <= x.len() && n <= y.len() && 2 * n >= y.len() && #[trigger] x.take(n) == y.take(
            n,
        );
    assert(entries[b].object.data@.take(n) == entries[i].object.data@.take(n));
}

/// Where a plan finds no candidate, no object in the window is similar and shallow enough.
pub proof fn law_no_candidate_means_none_is_similar(
    objects: Seq<DeltaObjectInput>,
    entries: Seq<DeltaPlannedEntry>,
    i: int,
    options: DeltaPackOptions,
    k: int,
)
    requires
        options.valid(),
        0 <= i < entries.len(),
        entries.len() <= usize::MAX,
        forall|e: int| 0 <= e < entries.len() ==> (#[trigger] entries[e]).object.data@.len() <= usize::MAX,
        objects[i].object.data@.len() <= usize::MAX,
        entry_planned(objects, entries, i, options),
        entries[i].action == DeltaEntryAction::Direct(DeltaFallbackReason::NoCandidate),
        objects[i].stored is None,
        objects[i].object.data@.len() > 0,
        !work_stopped(entries, i),
        0 <= k < window_before(entries, i, options).len(),
    ensures
        ({
            let b = window_before(entries, i, options)[k].0 as int;
            !(similar(trimmed_input(objects[i], options), entries[b], options) && delta_depth(
                depths_before(entries, i),
                entries[b].oid,
            ) <= options.max_depth)
        }),
{
    let input = trimmed_input(objects[i], options);
    let window = window_before(entries, i, options);
    let depths = depths_before(entries, i);
    let earlier = entries.take(i);
    law_window_stays_bounded(entries, i, options);
    let b = window[k].0 as int;
    assert(window[k].0 < i);
    assert(earlier[b] == entries[b]);
    let base = entries[b];
    if similar(input, base, options) && delta_depth(depths, base.oid) <= options.max_depth {
        law_shared_bytes_end_at_the_first_difference(base.object.data@, input.object.data@);
        let difference = if base.object.data@.len() > input.object.data@.len() {
            base.object.data@.len() - input.object.data@.len()
        } else {
            input.object.data@.len() - base.object.data@.len()
        };
        let candidate = Candidate {
            oid: base.oid,
            index: b as usize,
            path_score: spec_path_score(
                hint(input.path_hint),
                hint(base.path_hint),
                options.max_path_hint_bytes as int,
            ),
            prefix: shared_prefix(base.object.data@, input.object.data@) as usize,
            size_difference: difference as usize,
            depth: delta_depth(depths, base.oid) as u16,
        };
        assert(delta_depth(depths, base.oid) >= 1);
        assert(qualifies(candidate, input, earlier, window[k].0 as int, depths, options));
    }
}

/// An object that is not too large is the newest of the window after it, and what leaves for it is
/// the oldest of its kind where its kind is full, and then the oldest of all.
pub proof fn law_windows_keep_the_newest(
    window: Seq<(usize, u64, ObjectKind)>,
    index: usize,
    bytes: u64,
    kind: ObjectKind,
    options: DeltaPackOptions,
)
    ensures
        bytes <= options.max_retained_base_bytes ==> window_after(
            window,
            index,
            bytes,
            kind,
            options,
        ).len() > 0 && window_after(window, index, bytes, kind, options).last() == (
            index,
            bytes,
            kind,
        ),
        bytes > options.max_retained_base_bytes ==> window_after(window, index, bytes, kind, options)
            == window,
        exists|gone: int|
            0 <= gone <= thinned(window, kind, options).len() && evicted(
                thinned(window, kind, options),
                bytes as int,
                options,
            ) == #[trigger] thinned(window, kind, options).skip(gone),
        kind_count(window, kind) < options.window ==> thinned(window, kind, options) == window,
{
    lemma_evicted_is_a_rest(thinned(window, kind, options), bytes as int, options);
}

proof fn lemma_evicted_is_a_rest(
    window: Seq<(usize, u64, ObjectKind)>,
    bytes: int,
    options: DeltaPackOptions,
)
    ensures
        exists|gone: int|
            0 <= gone <= window.len() && evicted(window, bytes, options) == #[trigger] window.skip(
                gone,
            ),
    decreases window.len(),
{
    if window.len() > 0 && window_bytes(window) + bytes > options.max_retained_base_bytes {
        let rest = window.skip(1);
        lemma_evicted_is_a_rest(rest, bytes, options);
        let gone = choose|gone: int|
            0 <= gone <= rest.len() && evicted(rest, bytes, options) == #[trigger] rest.skip(gone);
        assert(rest.skip(gone) =~= window.skip(gone + 1));
    } else {
        assert(window =~= window.skip(0));
    }
}

/// The entries with one sort of action.
pub open spec fn acted(kind: DeltaActionKind) -> spec_fn(DeltaPlannedEntry) -> bool {
    |entry: DeltaPlannedEntry|
        match kind {
            DeltaActionKind::Reuse => entry.action is Reuse,
            DeltaActionKind::Generated => entry.action is Generated,
            DeltaActionKind::Direct => entry.action is Direct,
        }
}

/// A plan's report counts its reused, generated and direct entries, and says whether work ran out.
pub proof fn law_reports_count_the_actions(
    report: DeltaPlanningReport,
    entries: Seq<DeltaPlannedEntry>,
    options: DeltaPackOptions,
)
    requires
        report_of(report, entries, entries.len() as int, options),
    ensures
        report.reused_entries == entries.filter(acted(DeltaActionKind::Reuse)).len(),
        report.generated_entries == entries.filter(acted(DeltaActionKind::Generated)).len(),
        report.direct_entries == entries.filter(acted(DeltaActionKind::Direct)).len(),
        report.work_exhausted <==> exists|j: int|
            0 <= j < entries.len() && (#[trigger] entries[j]).action == DeltaEntryAction::Direct(
                DeltaFallbackReason::WorkBudget,
            ),
        report.candidate_comparisons <= options.max_candidate_comparisons,
{
    let n = entries.len() as int;
    assert(entries.take(n) =~= entries);
    lemma_actions_counted(entries, n, DeltaActionKind::Reuse);
    lemma_actions_counted(entries, n, DeltaActionKind::Generated);
    lemma_actions_counted(entries, n, DeltaActionKind::Direct);
}

proof fn lemma_actions_counted(
    entries: Seq<DeltaPlannedEntry>,
    count: int,
    kind: DeltaActionKind,
)
    requires
        0 <= count <= entries.len(),
    ensures
        count_actions(entries, count, kind) == entries.take(count).filter(acted(kind)).len(),
    decreases count,
{
    reveal(Seq::filter);
    if count > 0 {
        lemma_actions_counted(entries, count - 1, kind);
        assert(entries.take(count).drop_last() =~= entries.take(count - 1));
        assert(entries.take(count).last() == entries[count - 1]);
    }
}

/// A generated delta is written against where its base stands: counted back where the receiver can
/// read that, and by the base's identity otherwise; with its own kind, sizes and stream.
pub proof fn law_generated_deltas_are_written_against_their_bases(
    plan: PackEntryPlan,
    delta: GeneratedDeltaPlan,
    offsets: Map<ObjectId, u64>,
    capabilities: PackReuseCapabilities,
    output_offset: u64,
)
    requires
        generated_plan(plan, delta, offsets, capabilities, output_offset),
    ensures
        ({
            let base = delta.spec_base();
            let proven = delta.spec_base_index() is Some && offsets.dom().contains(base)
                && offsets[base] < output_offset;
            &&& proven && capabilities.ofs_delta <==> plan is OfsDelta
            &&& proven && !capabilities.ofs_delta <==> plan is RefDelta
            &&& !proven <==> plan is RecompressFallback
            &&& plan matches PackEntryPlan::OfsDelta(entry) ==> entry.base_output_offset
                == offsets[base] && entry.result_kind == delta.spec_result_kind()
                && entry.result_size == delta.spec_result_size() && entry.declared_size
                == delta.spec_instruction_size() && entry.compressed@ == delta.spec_compressed()
            &&& plan matches PackEntryPlan::RefDelta(entry) ==> entry.base == base
                && entry.result_kind == delta.spec_result_kind() && entry.result_size
                == delta.spec_result_size() && entry.declared_size
                == delta.spec_instruction_size() && entry.compressed@ == delta.spec_compressed()
        }),
{
}

/// An object stands in the output where its first entry was written.
pub proof fn law_objects_stand_where_first_written(
    entries: Seq<DeltaPlannedEntry>,
    cuts: Seq<int>,
    count: int,
    oid: ObjectId,
)
    requires
        0 <= count <= entries.len(),
        count < cuts.len(),
    ensures
        ({
            let offsets = offsets_before(entries, cuts, count);
            &&& offsets.dom().contains(oid) <==> exists|k: int|
                0 <= k < count && (#[trigger] entries[k]).oid == oid
            &&& offsets.dom().contains(oid) ==> exists|k: int|
                0 <= k < count && (#[trigger] entries[k]).oid == oid && offsets[oid] == cuts[k] as u64
                    && forall|j: int| 0 <= j < k ==> (#[trigger] entries[j]).oid != oid
        }),
    decreases count,
{
    if count > 0 {
        law_objects_stand_where_first_written(entries, cuts, count - 1, oid);
        let before = offsets_before(entries, cuts, count - 1);
        if !before.dom().contains(oid) && entries[count - 1].oid == oid {
            assert forall|j: int| 0 <= j < count - 1 implies (
            #[trigger] entries[j]).oid != oid by {}
            assert(entries[count - 1].oid == oid);
        }
    }
}

/// An object whose entry is direct is written as its kind and its content.
pub proof fn law_direct_entries_are_written_whole(
    entry: DeltaPlannedEntry,
    offsets: Map<ObjectId, u64>,
    capabilities: PackReuseCapabilities,
    before: Seq<u8>,
    after: Seq<u8>,
)
    requires
        entry.action is Direct,
        entry_written(entry, offsets, capabilities, before, after),
    ensures
        object_appended(before, after, entry.object.kind, entry.object.data@),
{
}

/// Objects may be planned together exactly where no identity is zero, all are of one algorithm, and
/// every stored form stands for its object.
pub proof fn law_usable_inputs(objects: Seq<DeltaObjectInput>)
    ensures
        inputs_usable(objects) <==> forall|i: int|
            0 <= i < objects.len() ==> {
                let input = #[trigger] objects[i];
                &&& !input.oid.spec_is_zero()
                &&& input.oid.spec_algo() == objects[0].oid.spec_algo()
                &&& input.stored matches Some(stored) ==> stored.stands_for(
                    input.oid,
                    input.object,
                )
            },
{
    assert forall|i: int| 0 <= i < objects.len() implies (input_usable(
        #[trigger] objects[i],
        objects[0].oid.spec_algo(),
    ) <==> {
        let input = objects[i];
        &&& !input.oid.spec_is_zero()
        &&& input.oid.spec_algo() == objects[0].oid.spec_algo()
        &&& input.stored matches Some(stored) ==> stored.stands_for(input.oid, input.object)
    }) by {}
}

/// A path hint is left out exactly where it is too long; nothing else of an object changes.
pub proof fn law_only_long_hints_are_left_out(input: DeltaObjectInput, options: DeltaPackOptions)
    ensures
        ({
            let trimmed = trimmed_input(input, options);
            &&& trimmed.oid == input.oid
            &&& trimmed.object == input.object
            &&& trimmed.stored == input.stored
            &&& match input.path_hint {
                None => trimmed.path_hint is None,
                Some(path) => if text_len(path@) <= options.max_path_hint_bytes {
                    trimmed.path_hint == Some(path)
                } else {
                    trimmed.path_hint is None
                },
            }
        }),
{
}

/// What was written for an entry is added to the counters.
pub proof fn law_written_entries_are_counted(
    report: DeltaPackWriteReport,
    entry: PackObjectWriteReport,
)
    requires
        report.written_entries < u64::MAX,
        report.decoded_bytes + entry.decoded_bytes <= u64::MAX,
        report.compressed_bytes + entry.compressed_bytes <= u64::MAX,
    ensures
        report.with_entry(entry).written_entries == report.written_entries + 1,
        report.with_entry(entry).decoded_bytes == report.decoded_bytes + entry.decoded_bytes,
        report.with_entry(entry).compressed_bytes == report.compressed_bytes
            + entry.compressed_bytes,
{
}

/// Comparing costs one unit for each byte that both objects have.
pub proof fn law_comparing_costs_the_shorter(base: StoredObject, target: StoredObject)
    requires
        base.data@.len() <= u64::MAX,
        target.data@.len() <= u64::MAX,
    ensures
        scan_units(base, target) <= base.data@.len(),
        scan_units(base, target) <= target.data@.len(),
        scan_units(base, target) == base.data@.len() || scan_units(base, target)
            == target.data@.len(),
{
}

/// A counter goes up by one for an event that happened, as far as it can count, and stays for one
/// that did not.
pub proof fn law_events_are_counted_once(count: u64)
    ensures
        count < u64::MAX ==> crate::delta_pack::counted_up(count, true) - count == 1,
        crate::delta_pack::counted_up(count, false) == count,
        crate::delta_pack::counted_up(u64::MAX, true) == u64::MAX,
{
}

/// A window represents the bytes of all of its objects.
pub proof fn law_window_bytes_add_up(
    first: (usize, u64, crate::object::ObjectKind),
    rest: Seq<(usize, u64, crate::object::ObjectKind)>,
)
    ensures
        window_bytes(Seq::empty()) == 0,
        window_bytes(seq![first] + rest) - window_bytes(rest) == first.1,
{
    assert((seq![first] + rest).skip(1) =~= rest);
}

/// A range is copied in full by copies of at most 65536 bytes, and bytes are inserted by literals of
/// at most 127: whatever is longer is cut there and goes on behind.
pub proof fn law_long_instructions_are_cut(offset: int, size: int, bytes: Seq<u8>)
    ensures
        size <= 0 ==> crate::delta_pack::copies(offset, size) == Seq::<u8>::empty(),
        0 < size <= 65_536 ==> crate::delta_pack::copies(offset, size)
            == crate::delta_pack::copy_code(offset, size),
        size > 65_536 ==> crate::delta_pack::copies(offset, size) == crate::delta_pack::copy_code(
            offset,
            65_536,
        ) + crate::delta_pack::copies(offset + 65_536, size - 65_536),
        bytes.len() == 0 ==> crate::delta_pack::literals(bytes) == Seq::<u8>::empty(),
        0 < bytes.len() <= 127 ==> crate::delta_pack::literals(bytes) == seq![
            bytes.len() as u8,
        ] + bytes,
        bytes.len() > 127 ==> crate::delta_pack::literals(bytes) == seq![127u8] + bytes.take(127)
            + crate::delta_pack::literals(bytes.skip(127)),
{
    reveal_with_fuel(crate::delta_pack::copies, 2);
    reveal_with_fuel(crate::delta_pack::literals, 2);
    if 0 < size <= 65_536 {
        assert(crate::delta_pack::copies(offset, size) =~= crate::delta_pack::copy_code(
            offset,
            size,
        ));
    }
    if 0 < bytes.len() <= 127 {
        let whole = bytes.len() as int;
        assert(bytes.take(whole) =~= bytes);
        assert(bytes.skip(whole) =~= Seq::<u8>::empty());
        assert(crate::delta_pack::literals(bytes) =~= seq![bytes.len() as u8] + bytes);
    }
}

/// Writing a plan keeps what was written before and adds the entries behind it.
pub proof fn law_written_plans_keep_the_front(
    entries: Seq<DeltaPlannedEntry>,
    capabilities: PackReuseCapabilities,
    before: Seq<u8>,
    after: Seq<u8>,
)
    requires
        crate::delta_pack::plan_written(entries, capabilities, before, after),
    ensures
        before.len() <= after.len(),
        after.take(before.len() as int) == before,
        exists|cuts: Seq<int>| #[trigger]
            crate::delta_pack::entries_written(
                entries,
                capabilities,
                after,
                cuts,
                entries.len() as int,
            ) && cuts[0] == before.len(),
{
}

/// Selecting takes at most the comparisons of the window, the instructions and the object itself.
pub proof fn law_selecting_costs_its_parts(
    target: StoredObject,
    entries: Seq<DeltaPlannedEntry>,
    window: Seq<(usize, u64, crate::object::ObjectKind)>,
    options: DeltaPackOptions,
)
    ensures
        crate::delta_pack::selection_work(target, entries, window, options) - target.data@.len()
            - options.max_instruction_bytes == crate::delta_pack::scan_work(
            target,
            entries,
            window,
            0,
        ),
        crate::delta_pack::scan_work(target, entries, Seq::empty(), 0) == 0,
{
}

/// The oldest object of a kind is the first of that kind: none before it is, and it stands at the end
/// where there is none.
pub proof fn law_oldest_is_the_first_of_its_kind(
    window: Seq<(usize, u64, crate::object::ObjectKind)>,
    kind: crate::object::ObjectKind,
    at: int,
)
    requires
        0 <= at <= window.len(),
    ensures
        at <= crate::delta_pack::oldest_of(window, kind, at) <= window.len(),
        forall|i: int|
            at <= i < crate::delta_pack::oldest_of(window, kind, at) ==> (#[trigger] window[i]).2
                != kind,
        crate::delta_pack::oldest_of(window, kind, at) < window.len() ==> window[
            crate::delta_pack::oldest_of(window, kind, at)].2 == kind,
    decreases window.len() - at,
{
    if at < window.len() && window[at].2 != kind {
        law_oldest_is_the_first_of_its_kind(window, kind, at + 1);
    }
}

/// The places of a window whose objects are of a kind.
pub open spec fn places_of(
    entries: Seq<DeltaPlannedEntry>,
    kind: crate::object::ObjectKind,
) -> spec_fn((usize, u64, crate::object::ObjectKind)) -> bool {
    |place: (usize, u64, crate::object::ObjectKind)|
        entries[place.0 as int].object.kind == kind
}

/// An object is compared with every object of its kind in the window.
pub proof fn law_all_of_a_kind_are_compared(
    entries: Seq<DeltaPlannedEntry>,
    window: Seq<(usize, u64, crate::object::ObjectKind)>,
    at: int,
    kind: crate::object::ObjectKind,
)
    requires
        0 <= at <= window.len(),
    ensures
        crate::delta_pack::comparable(entries, window, at, kind) == window.skip(at).filter(
            places_of(entries, kind),
        ).len(),
    decreases window.len() - at,
{
    let rest = window.skip(at);
    if at < window.len() {
        law_all_of_a_kind_are_compared(entries, window, at + 1, kind);
        let wanted = places_of(entries, kind);
        assert(rest =~= seq![window[at]] + window.skip(at + 1));
        Seq::filter_distributes_over_add(seq![window[at]], window.skip(at + 1), wanted);
        reveal(Seq::filter);
        assert(seq![window[at]].drop_last() =~= Seq::empty());
        assert(Seq::<(usize, u64, crate::object::ObjectKind)>::empty().filter(wanted).len() == 0);
        assert(seq![window[at]].filter(wanted).len() == if wanted(window[at]) {
            1nat
        } else {
            0
        });
    } else {
        reveal(Seq::filter);
        assert(rest.len() == 0);
    }
}

/// A plan that reuses bytes adds exactly those bytes; one that cannot adds the object compressed.
pub proof fn law_plans_add_what_they_say(
    plan: PackEntryPlan,
    object: StoredObject,
    before: Seq<u8>,
    after: Seq<u8>,
)
    requires
        crate::delta_pack::plan_executed(plan, object, before, after),
    ensures
        plan is RecompressFallback ==> object_appended(before, after, object.kind, object.data@),
        !(plan is RecompressFallback) ==> after.len() == before.len()
            + crate::pack_writer::reused_entry_bytes(plan, before.len() as int).len()
            && after.take(before.len() as int) == before && after.skip(before.len() as int)
            == crate::pack_writer::reused_entry_bytes(plan, before.len() as int),
{
    if !(plan is RecompressFallback) {
        let bytes = crate::pack_writer::reused_entry_bytes(plan, before.len() as int);
        assert(after.take(before.len() as int) =~= before);
        assert(after.skip(before.len() as int) =~= bytes);
    }
}

/// An object without a stored form is never reused, and is never refused for its base's size or for
/// a chain that is too deep: such bases are no candidates. Without a candidate it is compressed
/// directly, and only then for that reason.
pub proof fn law_unstored_objects_are_searched(
    action: crate::delta_pack::DeltaEntryAction,
    target: DeltaObjectInput,
    entries: Seq<DeltaPlannedEntry>,
    window: Seq<(usize, u64, crate::object::ObjectKind)>,
    depths: Map<crate::object::ObjectId, u64>,
    options: DeltaPackOptions,
)
    requires
        crate::delta_pack::selection(action, target, entries, window, depths, options),
    ensures
        !(action is Reuse),
        action matches crate::delta_pack::DeltaEntryAction::Direct(reason) ==> !(reason is Depth)
            && !(reason is BaseBytes) && (reason is NoCandidate ==> crate::delta_pack::best_of(
            None,
            target,
            entries,
            window,
            0,
            depths,
            options,
        )),
        action is Generated ==> crate::delta_pack::best_leads_to(
            action,
            target,
            entries,
            window,
            depths,
            options,
        ),
{
}

} // verus!
