//! Pending runtime motion commands, at most one per command kind, in replay
//! order.
use vstd::prelude::*;

verus! {

/// Identity of a motion command's variant in the pending store.
#[derive(Clone, Copy, Debug, PartialEq, Eq, Structural)]
pub enum MotionCommandKind {
    /// Absolute position command.
    Position,
    /// Direct velocity command.
    Velocity,
    /// Direct acceleration command.
    Acceleration,
    /// Direct heading and speed command.
    HeadingSpeed,
    /// Stop command.
    Stop,
    /// Start command.
    Start,
    /// Target speed command.
    TargetSpeed,
    /// Target heading command.
    TargetHeading,
}

/// Every command kind.
pub open spec fn all_kinds() -> Set<MotionCommandKind> {
    set![
        MotionCommandKind::Position,
        MotionCommandKind::Velocity,
        MotionCommandKind::Acceleration,
        MotionCommandKind::HeadingSpeed,
        MotionCommandKind::Stop,
        MotionCommandKind::Start,
        MotionCommandKind::TargetSpeed,
        MotionCommandKind::TargetHeading,
    ]
}

/// The kinds of a command sequence, in order.
pub open spec fn kinds_of<C>(entries: Seq<(MotionCommandKind, C)>) -> Seq<MotionCommandKind> {
    entries.map_values(|entry: (MotionCommandKind, C)| entry.0)
}

/// Whether an entry holds another kind than `kind`.
pub open spec fn other_kind<C>(kind: MotionCommandKind) -> spec_fn((MotionCommandKind, C)) -> bool {
    |entry: (MotionCommandKind, C)| entry.0 != kind
}

/// The entries of other kinds than `kind`, in order.
pub open spec fn without_kind<C>(entries: Seq<(MotionCommandKind, C)>, kind: MotionCommandKind) -> Seq<
    (MotionCommandKind, C),
> {
    entries.filter(other_kind(kind))
}

/// Commands waiting for the next step boundary, oldest first.
pub struct PendingMotionCommands<C> {
    entries: Vec<(MotionCommandKind, C)>,
}

impl<C> View for PendingMotionCommands<C> {
    type V = Seq<(MotionCommandKind, C)>;

    closed spec fn view(&self) -> Seq<(MotionCommandKind, C)> {
        self.entries@
    }
}

/// No kind occurs twice among a store's entries.
pub open spec fn unique_kinds<C>(entries: Seq<(MotionCommandKind, C)>) -> bool {
    kinds_of(entries).no_duplicates()
}

/// Removing one kind keeps the remaining kinds unique and drops that kind.
proof fn lemma_without_kind<C>(entries: Seq<(MotionCommandKind, C)>, kind: MotionCommandKind)
    requires
        unique_kinds(entries),
    ensures
        unique_kinds(without_kind(entries, kind)),
        !kinds_of(without_kind(entries, kind)).contains(kind),
    decreases entries.len(),
{
    let rest = without_kind(entries, kind);
    if entries.len() > 0 {
        let head = entries.drop_last();
        assert(kinds_of(head) =~= kinds_of(entries).drop_last());
        assert(unique_kinds(head));
        lemma_without_kind(head, kind);
        head.lemma_filter_push(entries.last(), other_kind(kind));
        assert(head.push(entries.last()) =~= entries);
        if entries.last().0 != kind {
            let previous = without_kind(head, kind);
            assert(rest =~= previous.push(entries.last()));
            assert(kinds_of(rest) =~= kinds_of(previous).push(entries.last().0));
            assert(!kinds_of(previous).contains(entries.last().0)) by {
                if kinds_of(previous).contains(entries.last().0) {
                    let i = choose|i: int| 0 <= i < kinds_of(previous).len() && kinds_of(previous)[i]
                        == entries.last().0;
                    assert(previous.contains(previous[i]));
                    head.lemma_filter_contains_rev(other_kind(kind), previous[i]);
                    let j = choose|j: int| 0 <= j < head.len() && head[j] == previous[i];
                    assert(kinds_of(entries)[j] == kinds_of(entries)[entries.len() - 1]);
                }
            }
        } else {
            assert(rest =~= without_kind(head, kind));
        }
    }
}

/// A sequence of distinct kinds holds at most the eight kinds.
proof fn lemma_at_most_eight(kinds: Seq<MotionCommandKind>)
    requires
        kinds.no_duplicates(),
    ensures
        kinds.len() <= 8,
{
    kinds.unique_seq_to_set();
    assert(kinds.to_set().subset_of(all_kinds())) by {
        assert forall|k: MotionCommandKind| kinds.to_set().contains(k) implies all_kinds().contains(k) by {
            match k {
                MotionCommandKind::Position => {},
                MotionCommandKind::Velocity => {},
                MotionCommandKind::Acceleration => {},
                MotionCommandKind::HeadingSpeed => {},
                MotionCommandKind::Stop => {},
                MotionCommandKind::Start => {},
                MotionCommandKind::TargetSpeed => {},
                MotionCommandKind::TargetHeading => {},
            }
        }
    }
    vstd::set_lib::lemma_len_subset(kinds.to_set(), all_kinds());
    assert(all_kinds().len() == 8);
}

impl<C> PendingMotionCommands<C> {
    #[verifier::type_invariant]
    spec fn kinds_are_unique(self) -> bool {
        unique_kinds(self.entries@)
    }

    /// An empty store.
    pub fn new() -> (pending: Self)
        ensures
            pending@ == Seq::<(MotionCommandKind, C)>::empty(),
    {
        let pending = PendingMotionCommands { entries: Vec::new() };
        assert(kinds_of(pending.entries@) =~= Seq::<MotionCommandKind>::empty());
        pending
    }

    /// Replaces any retained command of the same kind and appends the new
    /// command after all other retained commands.
    pub fn push(&mut self, kind: MotionCommandKind, command: C)
        ensures
            final(self)@ == without_kind(old(self)@, kind).push((kind, command)),
            final(self)@.len() <= 8,
    {
        proof {
            use_type_invariant(&*self);
        }
        let ghost before = self.entries@;
        let mut kept: Vec<(MotionCommandKind, C)> = Vec::new();
        let mut taken: Vec<(MotionCommandKind, C)> = Vec::new();
        assert(kinds_of(taken@) =~= Seq::<MotionCommandKind>::empty());
        std::mem::swap(&mut taken, &mut self.entries);
        assert(taken@ == before);
        let mut index: usize = 0;
        proof {
            lemma_at_most_eight(kinds_of(before));
        }
        while taken.len() > 0
            invariant
                before.len() <= 8,
                index + taken@.len() == before.len(),
                taken@ == before.skip(index as int),
                kept@ == without_kind(before.take(index as int), kind),
            decreases taken.len(),
        {
            let entry = taken.remove(0);
            let ghost prefix = before.take(index as int);
            proof {
                assert(before.take(index + 1) =~= prefix.push(entry));
                prefix.lemma_filter_push(entry, other_kind(kind));
                assert(taken@ =~= before.skip(index + 1));
            }
            if entry.0 != kind {
                kept.push(entry);
            }
            index = index + 1;
        }
        assert(before.take(before.len() as int) =~= before);
        proof {
            lemma_without_kind(before, kind);
            let rest = without_kind(before, kind);
            assert(kinds_of(rest.push((kind, command))) =~= kinds_of(rest).push(kind));
            lemma_at_most_eight(kinds_of(rest.push((kind, command))));
        }
        kept.push((kind, command));
        self.entries = kept;
    }

    /// Returns the number of retained commands.
    pub fn len(&self) -> (count: usize)
        ensures
            count == self@.len(),
            count <= 8,
    {
        proof {
            use_type_invariant(self);
            lemma_at_most_eight(kinds_of(self.entries@));
        }
        self.entries.len()
    }

    /// Takes the retained commands in replay order.
    pub fn into_commands(self) -> (commands: Vec<(MotionCommandKind, C)>)
        ensures
            commands@ == self@,
    {
        self.entries
    }
}

/// The store never holds two commands of one kind, so it never holds more
/// than eight.
pub proof fn lemma_pending_bounded<C>(entries: Seq<(MotionCommandKind, C)>)
    requires
        unique_kinds(entries),
    ensures
        entries.len() <= 8,
{
    lemma_at_most_eight(kinds_of(entries));
}

} // verus!
