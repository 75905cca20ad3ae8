use grit_protocol::negotiation::{
    negotiate_bounded, CommitQueue, CommitQueueItem, MembershipMemory, NegotiationCommit,
    NegotiationCommitParent, NegotiationError, NegotiationLimitKind, NegotiationLimits,
    NegotiationMetadataSource, NegotiationPlan, NegotiationSpillFactory, NegotiationSpillRole,
    NegotiationSpillSet, NegotiationTree, NegotiationTreeEntry, NegotiationWorkBudget,
    NegotiationWorkLimit, StableObjectOrdinal,
};
use grit_protocol::object::{ObjectId, ObjectKind};
use grit_protocol::pack_stream::{NeverCancel, PackCancellationToken};
use std::cell::RefCell;
use std::collections::{HashMap, HashSet};
use std::rc::Rc;

fn oid(byte: u8) -> ObjectId {
    ObjectId::from_bytes(&[byte; 20]).unwrap()
}

struct History {
    commits: HashMap<ObjectId, (ObjectId, Vec<ObjectId>, Option<u32>)>,
    trees: HashMap<ObjectId, Vec<(ObjectId, ObjectKind, u32)>>,
    commit_reads: Vec<ObjectId>,
    tree_reads: Vec<ObjectId>,
}

impl NegotiationMetadataSource for History {
    type Error = u8;

    fn read_commit(
        &mut self,
        oid: &ObjectId,
        _max_parents: usize,
    ) -> Result<Option<NegotiationCommit>, u8> {
        self.commit_reads.push(*oid);
        Ok(self.commits.get(oid).map(|(tree, parents, generation)| NegotiationCommit {
            oid: *oid,
            tree: *tree,
            tree_ordinal: None,
            parents: parents
                .iter()
                .map(|parent| NegotiationCommitParent {
                    oid: *parent,
                    generation: self.commits.get(parent).and_then(|row| row.2),
                    ordinal: None,
                })
                .collect(),
            generation: *generation,
            size_bytes: 10,
            ordinal: None,
        }))
    }

    fn read_tree(
        &mut self,
        oid: &ObjectId,
        _max_entries: usize,
    ) -> Result<Option<NegotiationTree>, u8> {
        self.tree_reads.push(*oid);
        Ok(self.trees.get(oid).map(|entries| NegotiationTree {
            oid: *oid,
            size_bytes: 5,
            ordinal: None,
            entries: entries
                .iter()
                .map(|(oid, kind, mode)| NegotiationTreeEntry {
                    oid: *oid,
                    kind: *kind,
                    size_bytes: Some(3),
                    mode: *mode,
                    ordinal: None,
                })
                .collect(),
        }))
    }
}

struct Spill {
    role: NegotiationSpillRole,
    members: HashSet<ObjectId>,
    capacity: usize,
    cleared: Rc<RefCell<Vec<NegotiationSpillRole>>>,
}

impl NegotiationSpillSet for Spill {
    type Error = u8;

    fn contains(&mut self, oid: &ObjectId) -> Result<bool, u8> {
        Ok(self.members.contains(oid))
    }

    fn insert(&mut self, oid: ObjectId) -> Result<bool, u8> {
        if self.members.len() == self.capacity {
            return Err(7);
        }
        Ok(self.members.insert(oid))
    }

    fn clear(&mut self) -> Result<(), u8> {
        self.members.clear();
        self.cleared.borrow_mut().push(self.role);
        Ok(())
    }
}

struct Spills {
    created: Vec<NegotiationSpillRole>,
    capacity: usize,
    cleared: Rc<RefCell<Vec<NegotiationSpillRole>>>,
}

fn spills() -> Spills {
    Spills { created: Vec::new(), capacity: usize::MAX, cleared: Rc::new(RefCell::new(Vec::new())) }
}

impl NegotiationSpillFactory for Spills {
    type Error = u8;
    type Set = Spill;

    fn create(&mut self, role: NegotiationSpillRole) -> Result<Spill, u8> {
        self.created.push(role);
        Ok(Spill {
            role,
            members: HashSet::new(),
            capacity: self.capacity,
            cleared: Rc::clone(&self.cleared),
        })
    }
}

fn history() -> History {
    let mut commits = HashMap::new();
    commits.insert(oid(1), (oid(11), Vec::new(), Some(1)));
    commits.insert(oid(2), (oid(12), vec![oid(1)], Some(2)));
    commits.insert(oid(3), (oid(13), vec![oid(2)], Some(3)));
    let mut trees = HashMap::new();
    trees.insert(oid(11), vec![(oid(21), ObjectKind::Blob, 0o100644)]);
    trees.insert(oid(12), vec![(oid(21), ObjectKind::Blob, 0o100644), (oid(22), ObjectKind::Blob, 0o100644)]);
    trees.insert(oid(13), vec![(oid(14), ObjectKind::Tree, 0o040000), (oid(9), ObjectKind::Commit, 0o160000)]);
    trees.insert(oid(14), vec![(oid(23), ObjectKind::Blob, 0o100755)]);
    History { commits, trees, commit_reads: Vec::new(), tree_reads: Vec::new() }
}

fn run(
    source: &mut History,
    wants: &[ObjectId],
    haves: &[ObjectId],
    limits: NegotiationLimits,
    units: u64,
) -> (Result<NegotiationPlan, NegotiationError<u8, u8>>, Vec<NegotiationSpillRole>) {
    let mut spills = spills();
    let plan = negotiate_bounded(
        source,
        wants,
        haves,
        limits,
        &mut spills,
        &mut NegotiationWorkLimit::new(units),
        &NeverCancel,
    );
    (plan, spills.created)
}

#[test]
fn full_clone_selects_everything_reachable() {
    let (plan, spilled) = run(&mut history(), &[oid(3)], &[], NegotiationLimits::default(), 1_000);
    let plan = plan.ok().unwrap();
    assert_eq!(plan.commits, vec![oid(3), oid(2), oid(1)]);
    let selected: HashSet<ObjectId> = plan.objects.iter().copied().collect();
    assert_eq!(selected.len(), plan.objects.len());
    for byte in [1, 2, 3, 11, 12, 13, 14, 21, 22, 23] {
        assert!(selected.contains(&oid(byte)));
    }
    assert!(!selected.contains(&oid(9)));
    assert_eq!(plan.objects.len(), 10);
    assert!(plan.used_generations);
    assert!(!plan.spilled);
    assert!(spilled.is_empty());
    assert_eq!(plan.selected_bytes, 3 * 10 + 4 * 5 + 3 * 3);
}

#[test]
fn haves_are_excluded() {
    let (plan, _) = run(&mut history(), &[oid(3)], &[oid(2)], NegotiationLimits::default(), 1_000);
    let plan = plan.ok().unwrap();
    assert_eq!(plan.common_haves, vec![oid(2)]);
    assert_eq!(plan.commits, vec![oid(3)]);
    assert!(!plan.objects.contains(&oid(1)));
    assert!(!plan.objects.contains(&oid(2)));
    assert!(plan.objects.contains(&oid(23)));
    let (unknown, _) = run(&mut history(), &[oid(3)], &[oid(99)], NegotiationLimits::default(), 1_000);
    assert!(matches!(unknown.err(), Some(NegotiationError::MissingMetadata)));
}

#[test]
fn nothing_wanted_selects_nothing() {
    let (plan, _) = run(&mut history(), &[], &[], NegotiationLimits::default(), 1_000);
    let plan = plan.ok().unwrap();
    assert!(plan.objects.is_empty());
    assert_eq!(plan.selected_bytes, 0);
}

#[test]
fn negotiation_spills_and_agrees() {
    let mut limits = NegotiationLimits::default();
    limits.spill_threshold_entries = 1;
    let (spilled, roles) = run(&mut history(), &[oid(3)], &[oid(1)], limits, 100_000);
    let spilled = spilled.ok().unwrap();
    let (plain, _) = run(&mut history(), &[oid(3)], &[oid(1)], NegotiationLimits::default(), 100_000);
    let plain = plain.ok().unwrap();
    assert!(spilled.spilled);
    assert!(!roles.is_empty());
    assert_eq!(spilled.objects, plain.objects);
    assert_eq!(spilled.commits, plain.commits);
}

#[test]
fn negotiation_limits_are_enforced() {
    let fault = |change: fn(&mut NegotiationLimits)| {
        let mut limits = NegotiationLimits::default();
        change(&mut limits);
        match run(&mut history(), &[oid(3)], &[], limits, 1_000).0.err().unwrap() {
            NegotiationError::Limit(kind) => kind,
            _ => panic!("a limit is exceeded"),
        }
    };
    assert_eq!(fault(|limits| limits.max_visited_commits = 0), NegotiationLimitKind::Configuration);
    assert_eq!(fault(|limits| limits.max_visited_commits = 2), NegotiationLimitKind::VisitedCommits);
    assert_eq!(fault(|limits| limits.max_selected_objects = 4), NegotiationLimitKind::SelectedObjects);
    assert_eq!(fault(|limits| limits.max_selected_bytes = 40), NegotiationLimitKind::SelectedBytes);
    assert_eq!(fault(|limits| limits.max_tree_entries = 1), NegotiationLimitKind::TreeEntries);
    let mut wants = NegotiationLimits::default();
    wants.max_wants = 1;
    assert!(matches!(
        run(&mut history(), &[oid(1), oid(2)], &[], wants, 1_000).0.err(),
        Some(NegotiationError::Limit(NegotiationLimitKind::Wants))
    ));
    assert!(matches!(
        run(&mut history(), &[oid(3)], &[], NegotiationLimits::default(), 2).0.err(),
        Some(NegotiationError::Limit(NegotiationLimitKind::Work))
    ));
}

#[test]
fn missing_and_corrupt_metadata_are_told_apart() {
    assert!(matches!(
        run(&mut history(), &[oid(77)], &[], NegotiationLimits::default(), 1_000).0.err(),
        Some(NegotiationError::MissingMetadata)
    ));
    let mut broken = history();
    broken.commits.insert(oid(3), (oid(13), vec![oid(2)], Some(1)));
    assert!(matches!(
        run(&mut broken, &[oid(3)], &[], NegotiationLimits::default(), 1_000).0.err(),
        Some(NegotiationError::CorruptMetadata)
    ));
    let wide = ObjectId::from_bytes(&[1; 32]).unwrap();
    assert!(matches!(
        run(&mut history(), &[oid(3), wide], &[], NegotiationLimits::default(), 1_000).0.err(),
        Some(NegotiationError::CorruptMetadata)
    ));
    let token = PackCancellationToken::new();
    token.cancel();
    let cancelled = negotiate_bounded(
        &mut history(),
        &[oid(3)],
        &[],
        NegotiationLimits::default(),
        &mut spills(),
        &mut NegotiationWorkLimit::new(1_000),
        &token,
    );
    assert!(matches!(cancelled.err(), Some(NegotiationError::Cancelled)));
}

#[test]
fn each_commit_is_read_once() {
    let mut source = history();
    source.commits.insert(oid(4), (oid(12), vec![oid(2), oid(1)], Some(3)));
    source.commits.insert(oid(5), (oid(13), vec![oid(3), oid(4), oid(2)], Some(4)));
    let (plan, _) = run(
        &mut source,
        &[oid(5), oid(3), oid(5)],
        &[oid(1)],
        NegotiationLimits::default(),
        1_000,
    );
    let plan = plan.ok().unwrap();
    assert_eq!(source.commit_reads.len(), 5);
    let commits: HashSet<ObjectId> = source.commit_reads.iter().copied().collect();
    assert_eq!(commits, (1..=5).map(oid).collect());
    assert_eq!(plan.commit_metadata_reads, 5);
    let selected: HashSet<ObjectId> = plan.commits.iter().copied().collect();
    assert_eq!(selected, (2..=5).map(oid).collect());
    let trees: HashSet<ObjectId> = source.tree_reads.iter().copied().collect();
    assert_eq!(trees.len(), source.tree_reads.len());
    assert_eq!(plan.tree_metadata_reads, source.tree_reads.len() as u64);
}

#[test]
fn refused_requests_read_nothing() {
    let mut source = history();
    let mut limits = NegotiationLimits::default();
    limits.max_haves = 1;
    let (refused, roles) = run(&mut source, &[oid(3)], &[oid(1), oid(2)], limits, 1_000);
    assert!(matches!(
        refused.err(),
        Some(NegotiationError::Limit(NegotiationLimitKind::Haves))
    ));
    assert!(source.commit_reads.is_empty());
    assert!(source.tree_reads.is_empty());
    assert!(roles.is_empty());
}

#[test]
fn every_spill_set_is_made_for_its_purpose_and_cleared() {
    let mut limits = NegotiationLimits::default();
    limits.spill_threshold_entries = 1;
    let mut factory = spills();
    let planned = negotiate_bounded(
        &mut history(),
        &[oid(3)],
        &[oid(2)],
        limits,
        &mut factory,
        &mut NegotiationWorkLimit::new(100_000),
        &NeverCancel,
    );
    assert!(planned.ok().unwrap().spilled);
    let roles =
        vec![NegotiationSpillRole::ExcludedCommits, NegotiationSpillRole::SelectedObjects];
    assert_eq!(factory.created, roles);
    assert_eq!(*factory.cleared.borrow(), roles);
}

#[test]
fn a_spill_set_that_fails_is_cleared_too() {
    let mut limits = NegotiationLimits::default();
    limits.spill_threshold_entries = 1;
    let mut factory = spills();
    factory.capacity = 1;
    let planned = negotiate_bounded(
        &mut history(),
        &[oid(3)],
        &[oid(2)],
        limits,
        &mut factory,
        &mut NegotiationWorkLimit::new(100_000),
        &NeverCancel,
    );
    assert!(matches!(planned.err(), Some(NegotiationError::Spill(7))));
    assert_eq!(factory.created, vec![NegotiationSpillRole::ExcludedCommits]);
    assert_eq!(*factory.cleared.borrow(), vec![NegotiationSpillRole::ExcludedCommits]);
}

fn item(byte: u8, generation: u32, sequence: u64) -> CommitQueueItem {
    let parent = NegotiationCommitParent {
        oid: oid(byte),
        generation: Some(generation),
        ordinal: Some(StableObjectOrdinal { index_generation: 1, ordinal: 2 }),
    };
    CommitQueueItem::parent(parent, sequence)
}

#[test]
fn commits_leave_by_generation_then_age() {
    let mut queue = CommitQueue::new();
    queue.push(item(1, 5, 0), 10).unwrap();
    queue.push(item(2, 7, 1), 10).unwrap();
    queue.push(item(3, 7, 2), 10).unwrap();
    queue.push(CommitQueueItem::new(oid(4), 3), 10).unwrap();
    let order: Vec<ObjectId> = (0..4).map(|_| queue.pop().unwrap().oid).collect();
    assert_eq!(order, vec![oid(2), oid(3), oid(1), oid(4)]);
    assert!(queue.pop().is_none());
    let mut full = CommitQueue::new();
    full.push(item(1, 1, 0), 1).unwrap();
    assert!(full.push(item(2, 1, 1), 1).is_err());
}

#[test]
fn membership_memory_is_counted() {
    let mut limits = NegotiationLimits::default();
    limits.max_membership_bytes = 64;
    let mut memory = MembershipMemory { estimated_bytes: 0 };
    assert!(memory.can_reserve_entry(limits));
    memory.reserve_entry(limits).unwrap();
    assert_eq!(memory.estimated_bytes, 64);
    assert!(!memory.can_reserve_entry(limits));
    assert_eq!(memory.reserve_entry(limits), Err(NegotiationLimitKind::Membership));
    memory.release_entries(1).unwrap();
    assert_eq!(memory.estimated_bytes, 0);
    assert!(memory.release_entries(1).is_err());
    let mut work = NegotiationWorkLimit::new(3);
    assert!(work.charge(2));
    assert!(!work.charge(2));
    assert_eq!((work.remaining(), work.checkpoints()), (1, 2));
}
