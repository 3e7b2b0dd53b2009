//! The mathematical model of a tree description: what each entry is, when a
//! directory is well formed, and what taking in an entry does to it.

use vstd::prelude::*;
use crate::order::{NameView, lemma_before_irreflexive, lemma_before_total, lemma_before_transitive};

verus! {

/// A permission value that an entry can be tagged with.
#[derive(Clone, Copy, Debug, PartialEq, Eq, Structural)]
pub struct Permissions {
    pub mode: u32,
}

/// What every kind of entry has.
pub struct CommonView {
    pub name: NameView,
    pub permissions: Option<Permissions>,
}

impl CommonView {
    /// An entry that was given neither a name nor permissions, and is
    /// numbered `ordinal`.
    pub open spec fn fresh(ordinal: nat) -> CommonView {
        CommonView { name: NameView::Generated(ordinal), permissions: None }
    }
}

/// Where the bytes of a file come from.
pub enum ContentView {
    /// Every byte is `0x00`.
    Zeroed,
    /// Every byte is `0xFF`.
    Oned,
    /// Pseudorandom bytes, from the given seed or from a fresh one.
    Random(Option<u64>),
    /// The given bytes.
    Custom(Seq<u8>),
}

/// The description of a file.
pub struct FileView {
    pub kind: ContentView,
    pub common: CommonView,
    pub size: Option<usize>,
}

/// The description of a symlink that points at nothing.
pub struct BrokenSymlinkView {
    pub common: CommonView,
}

/// Whether a directory stands where it is named, or is reached through a symlink.
#[derive(Clone, Copy, Debug, PartialEq, Eq, Structural)]
pub enum DirKind {
    /// A directory created in place.
    Normal,
    /// A symlink in place, whose target directory lies in the symlinks area.
    Symlink,
}

/// The children of a directory.
pub enum EntriesView {
    /// The children, in the order of their names.
    Valid(Seq<EntryView>),
    /// A name was given twice; it is all that is kept.
    HasDuplicate(Seq<char>),
}

/// The description of a directory.
pub struct DirView {
    pub kind: DirKind,
    pub common: CommonView,
    pub entries: EntriesView,
    /// The ordinal that the next child without a name gets.
    pub next_ordinal: nat,
}

/// The description of one entry of a tree.
pub enum EntryView {
    Dir(DirView),
    File(FileView),
    BrokenSymlink(BrokenSymlinkView),
}

impl EntryView {
    /// What the entry has in common with every other kind of entry.
    pub open spec fn common(self) -> CommonView {
        match self {
            EntryView::Dir(dir) => dir.common,
            EntryView::File(file) => file.common,
            EntryView::BrokenSymlink(link) => link.common,
        }
    }

    /// The name by which the entry is ordered and told apart from its siblings.
    pub open spec fn name(self) -> NameView {
        self.common().name
    }

    /// The same entry under another name.
    pub open spec fn renamed(self, name: NameView) -> EntryView {
        match self {
            EntryView::Dir(dir) => EntryView::Dir(
                DirView { common: CommonView { name, ..dir.common }, ..dir },
            ),
            EntryView::File(file) => EntryView::File(
                FileView { common: CommonView { name, ..file.common }, ..file },
            ),
            EntryView::BrokenSymlink(link) => EntryView::BrokenSymlink(
                BrokenSymlinkView { common: CommonView { name, ..link.common } },
            ),
        }
    }

    /// The entry with the number `ordinal` in place of the one it has: an
    /// entry without a name is numbered `ordinal`, a named one stays as it is.
    /// A directory does this to the entries it takes in, and a copy is the
    /// entry it was made from but for this.
    pub open spec fn adopted(self, ordinal: nat) -> EntryView {
        match self.name() {
            NameView::Explicit(_) => self,
            NameView::Generated(_) => self.renamed(NameView::Generated(ordinal)),
        }
    }

    /// Whether every directory of the entry is well formed.
    pub open spec fn wf(self) -> bool
        decreases self,
    {
        match self {
            EntryView::Dir(dir) => dir.wf(),
            EntryView::File(_) => true,
            EntryView::BrokenSymlink(_) => true,
        }
    }
}

/// Whether the names of `entries` strictly increase, so that none occurs twice.
pub open spec fn strictly_ordered(entries: Seq<EntryView>) -> bool {
    forall|i: int, j: int|
        0 <= i < j < entries.len() ==> (#[trigger] entries[i].name()).before(
            #[trigger] entries[j].name(),
        )
}

/// Whether every generated name among `entries` has an ordinal below `bound`.
pub open spec fn ordinals_below(entries: Seq<EntryView>, bound: nat) -> bool {
    forall|i: int|
        0 <= i < entries.len() ==> match (#[trigger] entries[i]).name() {
            NameView::Explicit(_) => true,
            NameView::Generated(ordinal) => ordinal < bound,
        }
}

/// How many of `entries` have a name that stands before `name`.
pub open spec fn rank(entries: Seq<EntryView>, name: NameView) -> nat
    decreases entries.len(),
{
    if entries.len() == 0 {
        0
    } else {
        rank(entries.drop_last(), name) + if entries.last().name().before(name) {
            1nat
        } else {
            0nat
        }
    }
}

/// Whether one of `entries` goes by `name`.
pub open spec fn has_name(entries: Seq<EntryView>, name: NameView) -> bool {
    exists|i: int| 0 <= i < entries.len() && (#[trigger] entries[i]).name() == name
}

impl DirView {
    /// An empty directory of the given kind, without name or permissions,
    /// numbered `ordinal`.
    pub open spec fn empty(kind: DirKind, ordinal: nat) -> DirView {
        DirView {
            kind,
            common: CommonView::fresh(ordinal),
            entries: EntriesView::Valid(Seq::empty()),
            next_ordinal: 0,
        }
    }

    /// Whether the directory, and every directory below it, holds its children
    /// in the strict order of their names, with the ordinals it gave out below
    /// the next one.
    pub open spec fn wf(self) -> bool
        decreases self,
    {
        match self.entries {
            EntriesView::HasDuplicate(_) => true,
            EntriesView::Valid(entries) => {
                &&& strictly_ordered(entries)
                &&& ordinals_below(entries, self.next_ordinal)
                &&& self.next_ordinal <= entries.len()
                &&& forall|i: int| 0 <= i < entries.len() ==> (#[trigger] entries[i]).wf()
            },
        }
    }

    /// The directory after it took in `entry`.
    ///
    /// An entry without a name gets the next ordinal of the directory; the
    /// children then take it in (see [`EntriesView::taking`]).
    pub open spec fn with_entry(self, entry: EntryView) -> DirView {
        let adopted = entry.adopted(self.next_ordinal);
        DirView {
            entries: self.entries.taking(adopted),
            next_ordinal: if self.entries is Valid && adopted.name() is Generated {
                self.next_ordinal + 1
            } else {
                self.next_ordinal
            },
            ..self
        }
    }
}

impl EntriesView {
    /// The children after they took in `entry`.
    ///
    /// Children that hold a duplicate stay as they are. An entry whose
    /// explicit name is taken turns them into children that hold a duplicate,
    /// and that name is all that is kept. Any other entry goes where its name
    /// belongs: behind the children whose names stand before its name.
    pub open spec fn taking(self, entry: EntryView) -> EntriesView {
        match self {
            EntriesView::HasDuplicate(_) => self,
            EntriesView::Valid(entries) => match entry.name() {
                NameView::Explicit(text) if has_name(entries, entry.name()) =>
                EntriesView::HasDuplicate(text),
                _ => EntriesView::Valid(
                    entries.insert(rank(entries, entry.name()) as int, entry),
                ),
            },
        }
    }
}

/// Where the names that stand before `name` end, in a directory's children.
pub open spec fn splits_at(entries: Seq<EntryView>, name: NameView, at: int) -> bool {
    &&& 0 <= at <= entries.len()
    &&& forall|j: int| 0 <= j < at ==> (#[trigger] entries[j]).name().before(name)
    &&& forall|j: int| at <= j < entries.len() ==> !(#[trigger] entries[j]).name().before(name)
}

/// In ordered children the names that stand before `name` are the first `rank` ones.
pub proof fn lemma_rank_splits(entries: Seq<EntryView>, name: NameView)
    requires
        strictly_ordered(entries),
    ensures
        splits_at(entries, name, rank(entries, name) as int),
    decreases entries.len(),
{
    if entries.len() > 0 {
        let front = entries.drop_last();
        assert(strictly_ordered(front)) by {
            assert forall|i: int, j: int| 0 <= i < j < front.len() implies (
            #[trigger] front[i].name()).before(#[trigger] front[j].name()) by {
                assert(entries[i].name().before(entries[j].name()));
            }
        }
        lemma_rank_splits(front, name);
        let at = rank(front, name) as int;
        if entries.last().name().before(name) {
            if at < front.len() {
                assert(front[at] == entries[at]);
                assert(entries[at].name().before(entries[entries.len() - 1].name()));
                lemma_before_transitive(entries[at].name(), entries.last().name(), name);
            }
            assert forall|j: int| 0 <= j < at + 1 implies (#[trigger] entries[j]).name().before(
                name,
            ) by {
                if j < at {
                    assert(front[j] == entries[j]);
                }
            }
        } else {
            assert forall|j: int| 0 <= j < at implies (#[trigger] entries[j]).name().before(
                name,
            ) by {
                assert(front[j] == entries[j]);
            }
            assert forall|j: int| at <= j < entries.len() implies !(
            #[trigger] entries[j]).name().before(name) by {
                if j < front.len() {
                    assert(front[j] == entries[j]);
                }
            }
        }
    }
}

/// Only one place splits ordered children around `name`, and only there
/// can `name` be found.
pub proof fn lemma_split_is_rank(entries: Seq<EntryView>, name: NameView, at: int)
    requires
        strictly_ordered(entries),
        splits_at(entries, name, at),
    ensures
        at == rank(entries, name),
        has_name(entries, name) <==> (at < entries.len() && entries[at].name() == name),
{
    lemma_rank_splits(entries, name);
    let found = rank(entries, name) as int;
    if found < at {
        assert(entries[found].name().before(name));
    } else if at < found {
        assert(entries[at].name().before(name));
    }
    if has_name(entries, name) {
        let i = choose|i: int| 0 <= i < entries.len() && (#[trigger] entries[i]).name() == name;
        lemma_before_irreflexive(name);
        if i < at {
            assert(entries[i].name().before(name));
        }
        if at < i {
            assert(entries[at].name().before(entries[i].name()));
        }
    }
}

/// Ordered children whose ordinals lie below `bound` neither hold the name
/// numbered `bound` nor a name that stands behind it.
pub proof fn lemma_next_ordinal_goes_last(entries: Seq<EntryView>, bound: nat)
    requires
        strictly_ordered(entries),
        ordinals_below(entries, bound),
    ensures
        !has_name(entries, NameView::Generated(bound)),
        rank(entries, NameView::Generated(bound)) == entries.len(),
{
    let name = NameView::Generated(bound);
    assert forall|j: int| 0 <= j < entries.len() implies (#[trigger] entries[j]).name().before(
        name,
    ) by {}
    lemma_split_is_rank(entries, name, entries.len() as int);
}

/// A directory stays well formed when it takes in a well-formed entry.
pub proof fn lemma_with_entry_wf(dir: DirView, entry: EntryView)
    requires
        dir.wf(),
        entry.wf(),
    ensures
        dir.with_entry(entry).wf(),
{
    if let EntriesView::Valid(entries) = dir.entries {
        let adopted = entry.adopted(dir.next_ordinal);
        let name = adopted.name();
        assert(adopted.wf());
        if name is Generated {
            lemma_next_ordinal_goes_last(entries, dir.next_ordinal);
        }
        if !has_name(entries, name) {
            lemma_rank_splits(entries, name);
            let at = rank(entries, name) as int;
            let grown = entries.insert(at, adopted);
            let bound = dir.with_entry(entry).next_ordinal;
            assert forall|i: int, j: int| 0 <= i < j < grown.len() implies (
            #[trigger] grown[i].name()).before(#[trigger] grown[j].name()) by {
                if j == at {
                    assert(grown[i] == entries[i]);
                } else if i == at {
                    assert(grown[j] == entries[j - 1]);
                    lemma_before_total(name, entries[j - 1].name());
                } else {
                    let old_i = if i < at { i } else { i - 1 };
                    let old_j = if j < at { j } else { j - 1 };
                    assert(grown[i] == entries[old_i]);
                    assert(grown[j] == entries[old_j]);
                }
            }
            assert forall|i: int| 0 <= i < grown.len() implies (#[trigger] grown[i]).wf()
                && match grown[i].name() {
                NameView::Explicit(_) => true,
                NameView::Generated(ordinal) => ordinal < bound,
            } by {
                if i != at {
                    let old_i = if i < at { i } else { i - 1 };
                    assert(grown[i] == entries[old_i]);
                }
            }
        }
    }
}

} // verus!
