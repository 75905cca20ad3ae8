//! What holds of every negotiated plan, told of the rows that were read and of the plan itself.

use crate::negotiation::{
    entry_fits, entry_role, first_occurrences, has_row, law_first_occurrences, law_plan_is_closed,
    metadata_corrupt, ordinal_checked, ordinal_given, pending_trees, plan_follows, plan_roles,
    queued_item, request_ids_agree, root_trees, row_set, row_unfit, rows_use_generations, select,
    select_commits, select_entries, select_trees, spills, subtrees, tree_fits, tree_read,
    visited_row, CommitQueueItem, NegotiationCommit, NegotiationError, NegotiationLimitKind,
    NegotiationLimits, NegotiationMetadataSource, NegotiationPlan, NegotiationSpillFactory,
    NegotiationTrace, NegotiationTree, NegotiationTreeEntry, Selection, StableObjectOrdinal,
    TreeEntryRole,
};
use crate::negotiation::NegotiationSpillSet;
use crate::object::{HashAlgo, ObjectId, ObjectKind};
use vstd::prelude::*;

verus! {

/// In every tree that is expanded each blob and each subtree is selected, whatever the mode of the
/// blob; only a commit with the mode of a submodule may be left out.
pub proof fn law_plan_holds_every_entry(
    plan: NegotiationPlan,
    wants: Seq<ObjectId>,
    haves: Seq<ObjectId>,
    limits: NegotiationLimits,
    trace: NegotiationTrace,
    k: int,
    e: int,
)
    requires
        plan_follows(plan, wants, haves, limits, trace),
        0 <= k < trace.trees.len(),
        0 <= e < trace.trees[k].entries@.len(),
    ensures
        ({
            let entry = trace.trees[k].entries@[e];
            &&& entry.kind == ObjectKind::Blob ==> plan.objects@.contains(entry.oid)
            &&& entry.kind == ObjectKind::Tree ==> plan.objects@.contains(entry.oid)
            &&& !plan.objects@.contains(entry.oid) ==> entry.kind == ObjectKind::Commit
                && entry.mode == 0o160000
            &&& entry.kind != ObjectKind::Tag
        }),
{
    law_plan_is_closed(plan, wants, haves, limits, trace);
    assert(tree_read(trace.want_rows, trace.trees, trace.positions, limits, k));
    assert(entry_fits(trace.trees[k].entries@[e], trace.trees[k].oid.spec_algo()));
}

/// The object is a commit, a tree or a blob of the rows.
pub open spec fn named_by(
    rows: Seq<NegotiationCommit>,
    trees: Seq<NegotiationTree>,
    oid: ObjectId,
) -> bool {
    ||| exists|i: int| 0 <= i < rows.len() && (#[trigger] rows[i]).oid == oid
    ||| exists|k: int| 0 <= k < trees.len() && (#[trigger] trees[k]).oid == oid
    ||| exists|k: int, e: int|
        #![trigger trees[k].entries@[e]]
        0 <= k < trees.len() && 0 <= e < trees[k].entries@.len() && trees[k].entries@[e].oid == oid
            && trees[k].entries@[e].kind == ObjectKind::Blob
}

/// Nothing is selected but the commits of the wants, the trees that were expanded and the blobs in
/// them.
pub proof fn law_plan_holds_nothing_else(
    plan: NegotiationPlan,
    wants: Seq<ObjectId>,
    haves: Seq<ObjectId>,
    limits: NegotiationLimits,
    trace: NegotiationTrace,
    oid: ObjectId,
)
    requires
        plan_follows(plan, wants, haves, limits, trace),
        plan.objects@.contains(oid),
    ensures
        named_by(trace.want_rows, trace.trees, oid),
{
    lemma_selected_is_named(trace.want_rows, trace.trees, trace.trees.len() as int, oid);
    let rows = trace.want_rows;
    let trees = trace.trees;
    if !(exists|i: int| 0 <= i < rows.len() && (#[trigger] rows[i]).oid == oid) && !(exists|k: int|
        0 <= k < trees.len() && (#[trigger] trees[k]).oid == oid) {
        let (k, e) = choose|k: int, e: int|
            #![trigger trees[k].entries@[e]]
            0 <= k < trees.len() && 0 <= e < trees[k].entries@.len() && trees[k].entries@[e].oid
                == oid && entry_role(trees[k].entries@[e].mode, trees[k].entries@[e].kind) == Some(
                TreeEntryRole::Blob,
            );
        assert(trees[k].entries@[e].kind == ObjectKind::Blob);
    }
}

proof fn lemma_selected_is_named(
    rows: Seq<NegotiationCommit>,
    trees: Seq<NegotiationTree>,
    count: int,
    oid: ObjectId,
)
    requires
        0 <= count <= trees.len(),
        select_trees(rows, trees, count).objects.contains(oid),
    ensures
        (exists|i: int| 0 <= i < rows.len() && (#[trigger] rows[i]).oid == oid) || (exists|k: int|
            0 <= k < count && (#[trigger] trees[k]).oid == oid) || (exists|k: int, e: int|
            #![trigger trees[k].entries@[e]]
            0 <= k < count && 0 <= e < trees[k].entries@.len() && trees[k].entries@[e].oid == oid
                && entry_role(trees[k].entries@[e].mode, trees[k].entries@[e].kind) == Some(
                TreeEntryRole::Blob,
            )),
    decreases count,
{
    if count <= 0 {
        lemma_commit_is_named(rows, rows.len() as int, oid);
    } else {
        let before = select_trees(rows, trees, count - 1);
        let tree = trees[count - 1];
        let chosen = select(before, tree.oid, tree.size_bytes);
        lemma_entry_is_named(chosen, tree.entries@, tree.entries@.len() as int, oid);
        if chosen.objects.contains(oid) {
            if before.objects.contains(oid) {
                lemma_selected_is_named(rows, trees, count - 1, oid);
            } else {
                assert(trees[count - 1].oid == oid);
            }
        } else {
            let e = choose|e: int|
                0 <= e < tree.entries@.len() && (#[trigger] tree.entries@[e]).oid == oid
                    && entry_role(tree.entries@[e].mode, tree.entries@[e].kind) == Some(
                    TreeEntryRole::Blob,
                );
            assert(trees[count - 1].entries@[e].oid == oid);
        }
    }
}

proof fn lemma_commit_is_named(rows: Seq<NegotiationCommit>, count: int, oid: ObjectId)
    requires
        0 <= count <= rows.len(),
        select_commits(rows, count).objects.contains(oid),
    ensures
        exists|i: int| 0 <= i < rows.len() && (#[trigger] rows[i]).oid == oid,
    decreases count,
{
    if count > 0 {
        let before = select_commits(rows, count - 1);
        if before.objects.contains(oid) {
            lemma_commit_is_named(rows, count - 1, oid);
        } else {
            assert(rows[count - 1].oid == oid);
        }
    }
}

proof fn lemma_entry_is_named(
    selection: Selection,
    entries: Seq<NegotiationTreeEntry>,
    count: int,
    oid: ObjectId,
)
    requires
        0 <= count <= entries.len(),
        select_entries(selection, entries, count).objects.contains(oid),
    ensures
        selection.objects.contains(oid) || exists|e: int|
            0 <= e < entries.len() && (#[trigger] entries[e]).oid == oid && entry_role(
                entries[e].mode,
                entries[e].kind,
            ) == Some(TreeEntryRole::Blob),
    decreases count,
{
    if count > 0 {
        let before = select_entries(selection, entries, count - 1);
        if before.objects.contains(oid) {
            lemma_entry_is_named(selection, entries, count - 1, oid);
        } else {
            assert(entries[count - 1].oid == oid);
        }
    }
}

/// The sum of sizes.
pub open spec fn total(sizes: Seq<u64>) -> int
    decreases sizes.len(),
{
    if sizes.len() == 0 {
        0
    } else {
        total(sizes.drop_last()) + sizes.last()
    }
}

/// A row gives the object this size.
pub open spec fn sized_by(
    rows: Seq<NegotiationCommit>,
    trees: Seq<NegotiationTree>,
    oid: ObjectId,
    size: u64,
) -> bool {
    ||| exists|i: int|
        0 <= i < rows.len() && (#[trigger] rows[i]).oid == oid && rows[i].size_bytes == size
    ||| exists|k: int|
        0 <= k < trees.len() && (#[trigger] trees[k]).oid == oid && trees[k].size_bytes == size
    ||| exists|k: int, e: int|
        #![trigger trees[k].entries@[e]]
        0 <= k < trees.len() && 0 <= e < trees[k].entries@.len() && trees[k].entries@[e].oid == oid
            && trees[k].entries@[e].kind == ObjectKind::Blob && trees[k].entries@[e].size_bytes
            == Some(size)
}

/// The sizes of the selected objects, one by one.
spec fn sizes_of(
    selection: Selection,
    sizes: Seq<u64>,
    rows: Seq<NegotiationCommit>,
    trees: Seq<NegotiationTree>,
) -> bool {
    &&& sizes.len() == selection.objects.len()
    &&& total(sizes) == selection.bytes
    &&& forall|i: int|
        0 <= i < sizes.len() ==> sized_by(rows, trees, selection.objects[i], #[trigger] sizes[i])
}

proof fn lemma_size_selected(
    selection: Selection,
    sizes: Seq<u64>,
    rows: Seq<NegotiationCommit>,
    trees: Seq<NegotiationTree>,
    oid: ObjectId,
    size: u64,
) -> (after: Seq<u64>)
    requires
        sizes_of(selection, sizes, rows, trees),
        sized_by(rows, trees, oid, size),
    ensures
        sizes_of(select(selection, oid, size), after, rows, trees),
{
    if selection.objects.contains(oid) {
        sizes
    } else {
        let after = sizes.push(size);
        assert(after.drop_last() =~= sizes);
        after
    }
}

proof fn lemma_sizes_of_commits(
    rows: Seq<NegotiationCommit>,
    trees: Seq<NegotiationTree>,
    count: int,
) -> (sizes: Seq<u64>)
    requires
        0 <= count <= rows.len(),
    ensures
        sizes_of(select_commits(rows, count), sizes, rows, trees),
    decreases count,
{
    if count <= 0 {
        Seq::empty()
    } else {
        let before = lemma_sizes_of_commits(rows, trees, count - 1);
        let row = rows[count - 1];
        assert(rows[count - 1].oid == row.oid);
        lemma_size_selected(
            select_commits(rows, count - 1),
            before,
            rows,
            trees,
            row.oid,
            row.size_bytes,
        )
    }
}

proof fn lemma_sizes_of_entries(
    selection: Selection,
    sizes: Seq<u64>,
    rows: Seq<NegotiationCommit>,
    trees: Seq<NegotiationTree>,
    k: int,
    count: int,
    algo: HashAlgo,
) -> (after: Seq<u64>)
    requires
        0 <= k < trees.len(),
        0 <= count <= trees[k].entries@.len(),
        sizes_of(selection, sizes, rows, trees),
        forall|e: int|
            0 <= e < trees[k].entries@.len() ==> entry_fits(
                #[trigger] trees[k].entries@[e],
                algo,
            ),
    ensures
        sizes_of(select_entries(selection, trees[k].entries@, count), after, rows, trees),
    decreases count,
{
    if count <= 0 {
        sizes
    } else {
        let before = lemma_sizes_of_entries(selection, sizes, rows, trees, k, count - 1, algo);
        let entry = trees[k].entries@[count - 1];
        if entry_role(entry.mode, entry.kind) == Some(TreeEntryRole::Blob) {
            assert(entry_fits(trees[k].entries@[count - 1], algo));
            assert(sized_by(rows, trees, entry.oid, entry.size_bytes->0));
            lemma_size_selected(
                select_entries(selection, trees[k].entries@, count - 1),
                before,
                rows,
                trees,
                entry.oid,
                entry.size_bytes->0,
            )
        } else {
            before
        }
    }
}

proof fn lemma_sizes_of_trees(
    rows: Seq<NegotiationCommit>,
    trees: Seq<NegotiationTree>,
    positions: Seq<int>,
    limits: NegotiationLimits,
    count: int,
) -> (sizes: Seq<u64>)
    requires
        0 <= count <= trees.len(),
        forall|k: int|
            0 <= k < trees.len() ==> #[trigger] tree_read(rows, trees, positions, limits, k),
    ensures
        sizes_of(select_trees(rows, trees, count), sizes, rows, trees),
    decreases count,
{
    if count <= 0 {
        lemma_sizes_of_commits(rows, trees, rows.len() as int)
    } else {
        let before = lemma_sizes_of_trees(rows, trees, positions, limits, count - 1);
        let tree = trees[count - 1];
        assert(tree_read(rows, trees, positions, limits, count - 1));
        assert(sized_by(rows, trees, tree.oid, tree.size_bytes)) by {
            assert(trees[count - 1].oid == tree.oid);
        }
        let chosen = lemma_size_selected(
            select_trees(rows, trees, count - 1),
            before,
            rows,
            trees,
            tree.oid,
            tree.size_bytes,
        );
        let pending = pending_trees(rows, trees, count - 1);
        lemma_sizes_of_entries(
            select(select_trees(rows, trees, count - 1), tree.oid, tree.size_bytes),
            chosen,
            rows,
            trees,
            count - 1,
            tree.entries@.len() as int,
            pending[positions[count - 1]].spec_algo(),
        )
    }
}

/// The selected bytes are the sizes of the selected objects, each object counted once with a size
/// that a row gives it.
pub proof fn law_selected_bytes_add_up(
    plan: NegotiationPlan,
    wants: Seq<ObjectId>,
    haves: Seq<ObjectId>,
    limits: NegotiationLimits,
    trace: NegotiationTrace,
)
    requires
        plan_follows(plan, wants, haves, limits, trace),
    ensures
        exists|sizes: Seq<u64>|
            sizes.len() == plan.objects@.len() && #[trigger] total(sizes) == plan.selected_bytes
                && forall|i: int|
                0 <= i < sizes.len() ==> sized_by(
                    trace.want_rows,
                    trace.trees,
                    plan.objects@[i],
                    #[trigger] sizes[i],
                ),
        plan.selected_bytes <= limits.max_selected_bytes,
        plan.objects@.len() <= limits.max_selected_objects,
{
    let sizes = lemma_sizes_of_trees(
        trace.want_rows,
        trace.trees,
        trace.positions,
        limits,
        trace.trees.len() as int,
    );
    assert(total(sizes) == plan.selected_bytes);
}

/// Every selected commit is a want or a parent of a commit selected before it; its own parents are
/// selected too, or known from the haves; and what is known from the haves is closed in the same way.
pub proof fn law_commits_are_the_ancestry(
    plan: NegotiationPlan,
    wants: Seq<ObjectId>,
    haves: Seq<ObjectId>,
    limits: NegotiationLimits,
    trace: NegotiationTrace,
    i: int,
)
    requires
        plan_follows(plan, wants, haves, limits, trace),
        0 <= i < plan.commits@.len(),
    ensures
        plan.commits@[i] == trace.want_rows[i].oid,
        wants.contains(plan.commits@[i]) || exists|k: int, p: int|
            #![trigger trace.want_rows[k].parents@[p]]
            0 <= k < i && 0 <= p < trace.want_rows[k].parents@.len()
                && trace.want_rows[k].parents@[p].oid == plan.commits@[i],
        forall|p: int|
            0 <= p < trace.want_rows[i].parents@.len() ==> plan.commits@.contains(
                (#[trigger] trace.want_rows[i].parents@[p]).oid,
            ) || has_row(trace.have_rows, trace.want_rows[i].parents@[p].oid),
        forall|k: int, p: int|
            #![trigger trace.have_rows[k].parents@[p]]
            0 <= k < trace.have_rows.len() && 0 <= p < trace.have_rows[k].parents@.len()
                ==> has_row(trace.have_rows, trace.have_rows[k].parents@[p].oid),
{
    let rows = trace.want_rows;
    let roots = first_occurrences(wants);
    let excluded = row_set(trace.have_rows);
    assert(plan.commits@[i] == rows[i].oid);
    assert(visited_row(roots, excluded, rows, trace.want_items, limits, i));
    let item = trace.want_items[i];
    assert(item.oid == rows[i].oid);
    assert(queued_item(roots, rows.take(i), item));
    law_first_occurrences(wants);
    if crate::negotiation::root_item(roots, item) {
        let r = choose|r: int|
            0 <= r < roots.len() && item == CommitQueueItem::spec_root(
                #[trigger] roots[r],
                r as u64,
            );
        assert(roots.to_set().contains(roots[r]));
        assert(wants.to_set().contains(roots[r]));
        assert(wants.contains(roots[r]));
    } else {
        let front = rows.take(i);
        let k = choose|k: int|
            0 <= k < front.len() && #[trigger] crate::negotiation::parent_item(
                roots.len() as int,
                front,
                item,
                k,
            );
        let p = choose|p: int|
            0 <= p < front[k].parents@.len() && item == CommitQueueItem::spec_parent(
                #[trigger] front[k].parents@[p],
                (crate::negotiation::pushed_before(roots.len() as int, front, k) + p) as u64,
            );
        assert(front[k] == rows[k]);
        assert(rows[k].parents@[p].oid == item.oid);
    }
    assert forall|p: int| 0 <= p < rows[i].parents@.len() implies plan.commits@.contains(
        (#[trigger] rows[i].parents@[p]).oid,
    ) || has_row(trace.have_rows, rows[i].parents@[p].oid) by {
        let oid = rows[i].parents@[p].oid;
        assert(excluded.contains(oid) || has_row(rows, oid));
        if has_row(rows, oid) {
            let k = choose|k: int| 0 <= k < rows.len() && (#[trigger] rows[k]).oid == oid;
            assert(plan.commits@[k] == oid);
        }
    }
}

/// Commits are visited from the newest generation down, and among equals in the order in which they
/// were found: of two that were both waiting, the one visited first is of the newer generation, or
/// of the same one and was found first.
pub proof fn law_newer_generations_are_visited_first(
    plan: NegotiationPlan,
    wants: Seq<ObjectId>,
    haves: Seq<ObjectId>,
    limits: NegotiationLimits,
    trace: NegotiationTrace,
    i: int,
    j: int,
)
    requires
        plan_follows(plan, wants, haves, limits, trace),
        0 <= i < j < trace.want_items.len(),
        trace.want_items[j].sequence < crate::negotiation::pushed_before(
            first_occurrences(wants).len() as int,
            trace.want_rows,
            i,
        ),
    ensures
        trace.want_items[i].generation > trace.want_items[j].generation || (
        trace.want_items[i].generation == trace.want_items[j].generation
            && trace.want_items[i].sequence <= trace.want_items[j].sequence),
{
    let a = trace.want_items[i];
    let b = trace.want_items[j];
    assert(visited_row(
        first_occurrences(wants),
        row_set(trace.have_rows),
        trace.want_rows,
        trace.want_items,
        limits,
        i,
    ));
    assert(b.rank() <= a.rank());
    if a.generation < b.generation {
        assert(a.generation + 1 <= b.generation);
        assert((a.generation + 1) * 0x1_0000_0000_0000_0000 <= b.generation
            * 0x1_0000_0000_0000_0000);
    }
}

/// A row that was read for a waiting commit is that commit's own: with its tree, its parents and the
/// ordinal and the generation that a child named, of one algorithm, and with no parent of a newer
/// generation.
pub proof fn law_rows_answer_what_was_asked(
    plan: NegotiationPlan,
    wants: Seq<ObjectId>,
    haves: Seq<ObjectId>,
    limits: NegotiationLimits,
    trace: NegotiationTrace,
    i: int,
)
    requires
        plan_follows(plan, wants, haves, limits, trace),
        0 <= i < trace.want_rows.len(),
    ensures
        ({
            let row = trace.want_rows[i];
            let item = trace.want_items[i];
            let algo = row.oid.spec_algo();
            &&& row.oid == item.oid
            &&& !row.oid.spec_is_zero() && !row.tree.spec_is_zero()
            &&& row.tree.spec_algo() == algo
            &&& item.ordinal is Some ==> row.ordinal == item.ordinal
            &&& item.indexed_generation is Some ==> row.generation == item.indexed_generation
            &&& row.generation != Some(0u32)
            &&& row.parents@.len() <= limits.max_commit_parents
            &&& forall|p: int|
                0 <= p < row.parents@.len() ==> {
                    let parent = #[trigger] row.parents@[p];
                    &&& !parent.oid.spec_is_zero()
                    &&& parent.oid.spec_algo() == algo
                    &&& parent.generation != Some(0u32)
                    &&& row.generation matches Some(own) ==> (parent.generation matches Some(
                        theirs,
                    ) ==> theirs <= own)
                }
        }),
{
    assert(visited_row(
        first_occurrences(wants),
        row_set(trace.have_rows),
        trace.want_rows,
        trace.want_items,
        limits,
        i,
    ));
}

/// A commit row that answers its request and is consistent is accepted.
pub proof fn law_consistent_commits_are_accepted(
    row: NegotiationCommit,
    item: CommitQueueItem,
    limits: NegotiationLimits,
)
    requires
        row.oid == item.oid,
        !row.oid.spec_is_zero(),
        !row.tree.spec_is_zero(),
        row.tree.spec_algo() == row.oid.spec_algo(),
        row.parents@.len() <= limits.max_commit_parents,
        item.ordinal is None || item.ordinal == row.ordinal,
        item.indexed_generation is None || item.indexed_generation == row.generation,
        row.generation matches Some(own) ==> own > 0,
        forall|p: int|
            0 <= p < row.parents@.len() ==> !(#[trigger] row.parents@[p]).oid.spec_is_zero()
                && row.parents@[p].oid.spec_algo() == row.oid.spec_algo() && (
            row.parents@[p].generation matches Some(theirs) ==> theirs > 0 && (
            row.generation matches Some(own) ==> theirs <= own)),
    ensures
        crate::negotiation::commit_fits(row, item, limits),
{
    assert forall|p: int| 0 <= p < row.parents@.len() implies crate::negotiation::parent_fits(
        #[trigger] row.parents@[p],
        row.generation,
        item.oid.spec_algo(),
    ) by {}
}

/// A tree row is accepted exactly where it is the tree that was asked for, is not too long, and each
/// entry is a nonzero identity of its algorithm: a subtree, a submodule, or a file, a program or a
/// symbolic link whose size is known.
pub proof fn law_trees_hold_files_links_trees_and_submodules(
    tree: NegotiationTree,
    oid: ObjectId,
    limits: NegotiationLimits,
)
    ensures
        tree_fits(tree, oid, limits) <==> {
            &&& tree.oid == oid
            &&& tree.entries@.len() <= limits.max_tree_entries
            &&& forall|i: int|
                0 <= i < tree.entries@.len() ==> {
                    let entry = #[trigger] tree.entries@[i];
                    &&& !entry.oid.spec_is_zero()
                    &&& entry.oid.spec_algo() == oid.spec_algo()
                    &&& match entry.kind {
                        ObjectKind::Tree => entry.mode == 0o040000,
                        ObjectKind::Commit => entry.mode == 0o160000,
                        ObjectKind::Blob => entry.size_bytes is Some && (entry.mode == 0o100644
                            || entry.mode == 0o100755 || entry.mode == 0o120000),
                        ObjectKind::Tag => false,
                    }
                }
        },
{
    assert forall|i: int| 0 <= i < tree.entries@.len() implies (entry_fits(
        #[trigger] tree.entries@[i],
        oid.spec_algo(),
    ) <==> {
        let entry = tree.entries@[i];
        &&& !entry.oid.spec_is_zero()
        &&& entry.oid.spec_algo() == oid.spec_algo()
        &&& match entry.kind {
            ObjectKind::Tree => entry.mode == 0o040000,
            ObjectKind::Commit => entry.mode == 0o160000,
            ObjectKind::Blob => entry.size_bytes is Some && (entry.mode == 0o100644 || entry.mode
                == 0o100755 || entry.mode == 0o120000),
            ObjectKind::Tag => false,
        }
    }) by {}
}

/// Trees are read for commits that were selected or for trees that were expanded before, each once.
pub proof fn law_trees_are_those_of_the_commits(
    plan: NegotiationPlan,
    wants: Seq<ObjectId>,
    haves: Seq<ObjectId>,
    limits: NegotiationLimits,
    trace: NegotiationTrace,
    k: int,
)
    requires
        plan_follows(plan, wants, haves, limits, trace),
        0 <= k < trace.trees.len(),
    ensures
        plan.objects@.contains(trace.trees[k].oid),
        (exists|i: int|
            0 <= i < trace.want_rows.len() && (#[trigger] trace.want_rows[i]).tree
                == trace.trees[k].oid) || (exists|h: int, e: int|
            #![trigger trace.trees[h].entries@[e]]
            0 <= h < k && 0 <= e < trace.trees[h].entries@.len() && trace.trees[h].entries@[e].oid
                == trace.trees[k].oid && trace.trees[h].entries@[e].kind == ObjectKind::Tree),
        plan.tree_metadata_reads == trace.trees.len(),
        plan.commit_metadata_reads == trace.have_rows.len() + trace.want_rows.len(),
{
    let rows = trace.want_rows;
    let trees = trace.trees;
    let n = trees.len() as int;
    assert(tree_read(rows, trees, trace.positions, limits, k));
    let pending = pending_trees(rows, trees, k);
    let at = trace.positions[k];
    assert(trees[k].oid == pending[at]);
    lemma_pending_is_named(rows, trees, k, at);
    lemma_pending_grows(rows, trees, k, n);
    assert(pending_trees(rows, trees, n)[at] == trees[k].oid);
    assert(plan.objects@.contains(pending_trees(rows, trees, n)[at]));
    if !(exists|i: int| 0 <= i < rows.len() && (#[trigger] rows[i]).tree == pending[at]) {
        let (h, e) = choose|h: int, e: int|
            #![trigger trees[h].entries@[e]]
            0 <= h < k && 0 <= e < trees[h].entries@.len() && trees[h].entries@[e].oid
                == pending[at] && entry_role(
                trees[h].entries@[e].mode,
                trees[h].entries@[e].kind,
            ) == Some(TreeEntryRole::Tree);
        assert(trees[h].entries@[e].kind == ObjectKind::Tree);
    }
}

proof fn lemma_pending_grows(
    rows: Seq<NegotiationCommit>,
    trees: Seq<NegotiationTree>,
    few: int,
    many: int,
)
    requires
        few <= many <= trees.len(),
    ensures
        pending_trees(rows, trees, few).is_prefix_of(pending_trees(rows, trees, many)),
        pending_trees(rows, trees, few).len() <= pending_trees(rows, trees, many).len(),
        forall|i: int|
            0 <= i < pending_trees(rows, trees, few).len() ==> pending_trees(rows, trees, few)[i]
                == #[trigger] pending_trees(rows, trees, many)[i],
    decreases many - few,
{
    if few < many {
        lemma_pending_grows(rows, trees, few, many - 1);
        if many <= 0 {
            assert(pending_trees(rows, trees, many) == pending_trees(rows, trees, few));
        }
    }
}

proof fn lemma_pending_is_named(
    rows: Seq<NegotiationCommit>,
    trees: Seq<NegotiationTree>,
    count: int,
    at: int,
)
    requires
        0 <= count <= trees.len(),
        0 <= at < pending_trees(rows, trees, count).len(),
    ensures
        ({
            let oid = pending_trees(rows, trees, count)[at];
            (exists|i: int| 0 <= i < rows.len() && (#[trigger] rows[i]).tree == oid) || (exists|
                h: int,
                e: int,
            |
                #![trigger trees[h].entries@[e]]
                0 <= h < count && 0 <= e < trees[h].entries@.len() && trees[h].entries@[e].oid
                    == oid && entry_role(trees[h].entries@[e].mode, trees[h].entries@[e].kind)
                    == Some(TreeEntryRole::Tree))
        }),
    decreases count,
{
    if count <= 0 {
        lemma_roots(rows, rows.len() as int);
        assert(rows[at].tree == pending_trees(rows, trees, count)[at]);
    } else {
        let before = pending_trees(rows, trees, count - 1);
        let entries = trees[count - 1].entries@;
        if at < before.len() {
            lemma_pending_is_named(rows, trees, count - 1, at);
        } else {
            lemma_subtree_is_named(entries, entries.len() as int, at - before.len());
            let oid = pending_trees(rows, trees, count)[at];
            let e = choose|e: int|
                0 <= e < entries.len() && (#[trigger] entries[e]).oid == oid && entry_role(
                    entries[e].mode,
                    entries[e].kind,
                ) == Some(TreeEntryRole::Tree);
            assert(trees[count - 1].entries@[e].oid == oid);
        }
    }
}

proof fn lemma_roots(rows: Seq<NegotiationCommit>, count: int)
    requires
        0 <= count <= rows.len(),
    ensures
        root_trees(rows, count).len() == count,
        forall|i: int| 0 <= i < count ==> root_trees(rows, count)[i] == (#[trigger] rows[i]).tree,
    decreases count,
{
    if count > 0 {
        lemma_roots(rows, count - 1);
    }
}

proof fn lemma_subtree_is_named(entries: Seq<NegotiationTreeEntry>, count: int, at: int)
    requires
        0 <= count <= entries.len(),
        0 <= at < subtrees(entries, count).len(),
    ensures
        exists|e: int|
            0 <= e < entries.len() && (#[trigger] entries[e]).oid == subtrees(entries, count)[at]
                && entry_role(entries[e].mode, entries[e].kind) == Some(TreeEntryRole::Tree),
    decreases count,
{
    if count > 0 {
        let before = subtrees(entries, count - 1);
        if at < before.len() {
            lemma_subtree_is_named(entries, count - 1, at);
        } else {
            assert(entries[count - 1].oid == subtrees(entries, count)[at]);
        }
    }
}

/// A plan that keeps every set within its threshold and all of them within the memory spills
/// nothing; one whose commits or objects outgrow the threshold does; and it says so exactly where a
/// spill set was made.
pub proof fn law_plan_says_whether_it_spilled(
    plan: NegotiationPlan,
    wants: Seq<ObjectId>,
    haves: Seq<ObjectId>,
    limits: NegotiationLimits,
    trace: NegotiationTrace,
)
    requires
        plan_follows(plan, wants, haves, limits, trace),
    ensures
        plan.spilled <==> plan_roles(plan, limits).len() > 0,
        plan.objects@.len() > limits.spill_threshold_entries ==> plan.spilled,
        plan.commits@.len() > limits.spill_threshold_entries ==> plan.spilled,
        trace.have_rows.len() > limits.spill_threshold_entries ==> plan.spilled,
        trace.have_rows.len() <= limits.spill_threshold_entries && plan.commits@.len()
            <= limits.spill_threshold_entries && plan.objects@.len()
            <= limits.spill_threshold_entries && 64 * (trace.have_rows.len() + plan.commits@.len()
            + plan.objects@.len()) <= limits.max_membership_bytes ==> !plan.spilled,
{
}

/// A plan has used generations exactly where a row that was read names one for a parent.
pub proof fn law_plan_says_whether_generations_were_used(
    plan: NegotiationPlan,
    wants: Seq<ObjectId>,
    haves: Seq<ObjectId>,
    limits: NegotiationLimits,
    trace: NegotiationTrace,
    k: int,
    p: int,
)
    requires
        plan_follows(plan, wants, haves, limits, trace),
    ensures
        0 <= k < trace.want_rows.len() && 0 <= p < trace.want_rows[k].parents@.len()
            && trace.want_rows[k].parents@[p].generation is Some ==> plan.used_generations,
        0 <= k < trace.have_rows.len() && 0 <= p < trace.have_rows[k].parents@.len()
            && trace.have_rows[k].parents@[p].generation is Some ==> plan.used_generations,
        plan.used_generations ==> (exists|h: int, q: int|
            #![trigger trace.want_rows[h].parents@[q]]
            0 <= h < trace.want_rows.len() && 0 <= q < trace.want_rows[h].parents@.len()
                && trace.want_rows[h].parents@[q].generation is Some) || (exists|h: int, q: int|
            #![trigger trace.have_rows[h].parents@[q]]
            0 <= h < trace.have_rows.len() && 0 <= q < trace.have_rows[h].parents@.len()
                && trace.have_rows[h].parents@[q].generation is Some),
{
    lemma_generations(trace.want_rows, k, p);
    lemma_generations(trace.have_rows, k, p);
}

proof fn lemma_generations(rows: Seq<NegotiationCommit>, k: int, p: int)
    ensures
        0 <= k < rows.len() && 0 <= p < rows[k].parents@.len() && rows[k].parents@[p].generation
            is Some ==> rows_use_generations(rows),
        rows_use_generations(rows) ==> exists|h: int, q: int|
            #![trigger rows[h].parents@[q]]
            0 <= h < rows.len() && 0 <= q < rows[h].parents@.len() && rows[h].parents@[q].generation
                is Some,
{
    if 0 <= k < rows.len() && 0 <= p < rows[k].parents@.len() && rows[k].parents@[p].generation
        is Some {
        assert(crate::negotiation::parents_use_generations(rows[k].parents@));
    }
    if rows_use_generations(rows) {
        let h = choose|h: int|
            0 <= h < rows.len() && #[trigger] crate::negotiation::parents_use_generations(
                rows[h].parents@,
            );
        let q = choose|q: int|
            0 <= q < rows[h].parents@.len() && (#[trigger] rows[h].parents@[q]).generation is Some;
        assert(rows[h].parents@[q].generation is Some);
    }
}

/// Metadata is called corrupt only where it is: where every row that the source can give answers its
/// request and is consistent, all ordinals are of one generation and spill sets keep count, it never
/// is.
pub proof fn law_consistent_metadata_is_never_corrupt<
    M: NegotiationMetadataSource,
    F: NegotiationSpillFactory,
>(source: M, limits: NegotiationLimits, generation: u64)
    requires
        !F::Set::repeats(),
        forall|row: NegotiationCommit, item: CommitQueueItem| !#[trigger]
            row_unfit(source, limits, row, item),
        forall|oid: ObjectId, tree: NegotiationTree| #[trigger]
            M::answers_tree(source.catalogue(), oid, limits.max_tree_entries, Ok(Some(tree)))
                ==> tree_fits(tree, oid, limits),
        forall|ordinal: StableObjectOrdinal| #[trigger]
            ordinal_given(source, limits, ordinal) ==> ordinal.index_generation == generation,
    ensures
        !metadata_corrupt::<M, F>(source, limits),
{
}

/// A request is taken exactly where no identity is zero and all are of one algorithm.
pub proof fn law_requests_are_of_one_algorithm(
    wants: Seq<ObjectId>,
    haves: Seq<ObjectId>,
    algo: HashAlgo,
)
    requires
        wants.len() > 0,
        wants[0].spec_algo() == algo,
    ensures
        request_ids_agree(wants, haves) <==> (forall|i: int|
            0 <= i < wants.len() ==> !(#[trigger] wants[i]).spec_is_zero() && wants[i].spec_algo()
                == algo) && (forall|i: int|
            0 <= i < haves.len() ==> !(#[trigger] haves[i]).spec_is_zero() && haves[i].spec_algo()
                == algo),
{
    let all = wants + haves;
    assert(all[0] == wants[0]);
    if request_ids_agree(wants, haves) {
        assert forall|i: int| 0 <= i < wants.len() implies !(
        #[trigger] wants[i]).spec_is_zero() && wants[i].spec_algo() == algo by {
            assert(all[i] == wants[i]);
        }
        assert forall|i: int| 0 <= i < haves.len() implies !(
        #[trigger] haves[i]).spec_is_zero() && haves[i].spec_algo() == algo by {
            assert(all[wants.len() + i] == haves[i]);
        }
    }
}

/// An ordinal is refused exactly where it is beyond the limit or of another generation than the one
/// seen first, which stays.
pub proof fn law_ordinals_stay_in_one_generation<ME, SE>(
    generation: Option<u64>,
    given: StableObjectOrdinal,
    limits: NegotiationLimits,
)
    ensures
        ({
            let checked = ordinal_checked::<ME, SE>(generation, Some(given), limits);
            &&& ordinal_checked::<ME, SE>(generation, None, limits) == Ok::<
                Option<u64>,
                NegotiationError<ME, SE>,
            >(generation)
            &&& checked is Ok <==> given.ordinal <= limits.max_stable_ordinal && (generation is None
                || generation == Some(given.index_generation))
            &&& checked is Ok ==> checked->Ok_0 == Some(given.index_generation)
            &&& given.ordinal > limits.max_stable_ordinal ==> checked == Err::<
                Option<u64>,
                NegotiationError<ME, SE>,
            >(NegotiationError::Limit(NegotiationLimitKind::StableOrdinal))
        }),
{
}

/// Bytes count for commits, for trees and for the blobs in them, and for nothing else.
pub proof fn law_bytes_count_for_what_is_sent(
    rows: Seq<crate::negotiation::NegotiationCommit>,
    trees: Seq<crate::negotiation::NegotiationTree>,
    entries: Seq<crate::negotiation::NegotiationTreeEntry>,
    i: int,
)
    requires
        i >= 0,
    ensures
        crate::negotiation::commit_bytes(rows, 0) == 0,
        crate::negotiation::tree_bytes(trees, 0) == 0,
        crate::negotiation::blob_bytes(entries, 0) == 0,
        crate::negotiation::commit_bytes(rows, i + 1) - crate::negotiation::commit_bytes(rows, i)
            == rows[i].size_bytes,
        crate::negotiation::tree_bytes(trees, i + 1) - crate::negotiation::tree_bytes(trees, i)
            == trees[i].size_bytes + crate::negotiation::blob_bytes(
            trees[i].entries@,
            trees[i].entries@.len() as int,
        ),
        entries[i].kind is Blob && (entries[i].mode == 0o100644 || entries[i].mode == 0o100755
            || entries[i].mode == 0o120000) ==> crate::negotiation::blob_bytes(entries, i + 1)
            - crate::negotiation::blob_bytes(entries, i) == entries[i].size_bytes->0,
        entries[i].kind !is Blob ==> crate::negotiation::blob_bytes(entries, i + 1)
            == crate::negotiation::blob_bytes(entries, i),
{
}

/// An object is selected once: the first time it adds itself and its bytes, and never again.
pub proof fn law_objects_are_selected_once(
    selection: crate::negotiation::Selection,
    oid: crate::object::ObjectId,
    size: u64,
)
    ensures
        ({
            let after = crate::negotiation::select(selection, oid, size);
            &&& after.objects.contains(oid)
            &&& selection.objects.contains(oid) ==> after == selection
            &&& !selection.objects.contains(oid) ==> after.objects == selection.objects.push(oid)
                && after.bytes - selection.bytes == size
            &&& crate::negotiation::select(after, oid, size) == after
        }),
{
    let after = crate::negotiation::select(selection, oid, size);
    if !selection.objects.contains(oid) {
        assert(after.objects[selection.objects.len() as int] == oid);
    }
}

/// A walk is closed exactly where every root and every parent of a row was visited or is excluded.
pub proof fn law_walks_leave_no_parent_out(
    roots: Seq<crate::object::ObjectId>,
    excluded: Set<crate::object::ObjectId>,
    rows: Seq<crate::negotiation::NegotiationCommit>,
    k: int,
    p: int,
)
    requires
        crate::negotiation::walk_closed(roots, excluded, rows),
    ensures
        0 <= k < roots.len() && !excluded.contains(roots[k]) ==> crate::negotiation::has_row(
            rows,
            roots[k],
        ),
        0 <= k < rows.len() && 0 <= p < rows[k].parents@.len() && !excluded.contains(
            rows[k].parents@[p].oid,
        ) ==> crate::negotiation::has_row(rows, rows[k].parents@[p].oid),
{
    if 0 <= k < rows.len() && 0 <= p < rows[k].parents@.len() {
        let parent = rows[k].parents@[p];
    }
}

/// Limits of a negotiation may be used exactly where none of them is zero.
pub proof fn law_usable_negotiation_limits(limits: crate::negotiation::NegotiationLimits)
    ensures
        !limits.valid() <==> (limits.max_wants == 0 || limits.max_haves == 0
            || limits.max_visited_commits == 0 || limits.max_commit_parents == 0
            || limits.max_selected_objects == 0 || limits.max_selected_bytes == 0
            || limits.max_tree_entries == 0 || limits.spill_threshold_entries == 0
            || limits.max_membership_bytes == 0 || limits.max_stable_ordinal == 0),
{
}

/// A set stays in memory exactly while it is empty, or has no more members than its threshold and
/// 64 bytes for each of them fit beside what is held already. In memory it holds those bytes, and in
/// a spill set none.
pub proof fn law_small_sets_stay_in_memory(
    count: int,
    held: int,
    limits: crate::negotiation::NegotiationLimits,
)
    requires
        count >= 0,
    ensures
        !crate::negotiation::spills(count, held, limits) <==> (count == 0 || (count
            <= limits.spill_threshold_entries && held + count * 64 <= limits.max_membership_bytes)),
        crate::negotiation::spills(count, held, limits) ==> crate::negotiation::held_after(
            count,
            held,
            limits,
        ) == held,
        !crate::negotiation::spills(count, held, limits) ==> crate::negotiation::held_after(
            count,
            held,
            limits,
        ) - held == count * 64,
{
}

/// A commit's row speaks of its own ordinal, its tree's and its parents'; a tree's row, of its own
/// and its entries'.
pub proof fn law_rows_name_their_ordinals(
    row: crate::negotiation::NegotiationCommit,
    tree: crate::negotiation::NegotiationTree,
    ordinal: crate::negotiation::StableObjectOrdinal,
    i: int,
)
    ensures
        row.ordinal == Some(ordinal) ==> crate::negotiation::commit_names(row, ordinal),
        row.tree_ordinal == Some(ordinal) ==> crate::negotiation::commit_names(row, ordinal),
        0 <= i < row.parents@.len() && row.parents@[i].ordinal == Some(ordinal)
            ==> crate::negotiation::commit_names(row, ordinal),
        tree.ordinal == Some(ordinal) ==> crate::negotiation::tree_names(tree, ordinal),
        0 <= i < tree.entries@.len() && tree.entries@[i].ordinal == Some(ordinal)
            ==> crate::negotiation::tree_names(tree, ordinal),
{
}

} // verus!
