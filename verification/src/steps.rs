//! What building a tree consists of: the operations, in their order, that
//! bring a described entry into being below given places, the ordinals that
//! this uses up, and the name at which it fails.

use vstd::prelude::*;

use crate::entry::file::{seeded_bytes, DEFAULT_FILE_SIZE};
use crate::model::{
    BrokenSymlinkView, ContentView, DirKind, DirView, EntriesView, EntryView, FileView,
};
use crate::names::{broken_symlink_dest_name, symlink_dest_name, Counters, NameCategory};
use crate::order::NameView;
use crate::plan::{
    draws_after, next_draw, ops_of, BuildError, DrawView, FsOp, FsOpView, PathView,
};
use crate::utils::two_words;

verus! {

/// The two places beside the tree that a build puts things in.
pub struct Areas {
    /// Where the directories lie that symlinked directories point at.
    pub symlinks: PathView,
    /// Where the places lie that broken symlinks point at.
    pub broken_symlinks: PathView,
}

/// The course of a build.
pub struct Steps {
    /// The operations, in their order. After a failure: those that come
    /// before it.
    pub ops: Seq<FsOpView>,
    /// The ordinals that are left.
    pub names: Counters,
    /// The name that a directory was given twice, where the build came upon
    /// such a directory.
    pub failure: Option<Seq<char>>,
}

impl Steps {
    /// Whether a build took this course: `after` is `before` with the
    /// operations appended, `names` are the ordinals that are left, and
    /// `result` tells the failure.
    pub open spec fn taken(
        self,
        before: Seq<FsOp>,
        after: Seq<FsOp>,
        names: Counters,
        result: Result<(), BuildError>,
    ) -> bool {
        &&& ops_of(after) == ops_of(before) + self.ops
        &&& names == self.names
        &&& match result {
            Ok(_) => self.failure is None,
            Err(error) => self.failure == Some(error.name()),
        }
    }
}

impl Counters {
    /// Whether the streams have the ordinals left that building `entry` can use up.
    pub open spec fn has_room_for(self, entry: EntryView) -> bool {
        &&& self.symlink_dest + entry.demand(NameCategory::SymlinkDest) <= u64::MAX
        &&& self.broken_symlink_dest + entry.demand(NameCategory::BrokenSymlinkDest) <= u64::MAX
    }

    /// Whether the next targets are numbered no higher than operations were
    /// planned. Every target comes with an operation of its own, so numbers
    /// that start out like this stay like this, and no plan outgrows them.
    pub open spec fn within_plan(self, planned: nat) -> bool {
        self.symlink_dest + self.broken_symlink_dest <= planned
    }

    /// Whether the ordinals last for building `entry` onto a plan of
    /// `planned` operations: the streams have room for all that the entry can
    /// use up, or the plan is long enough to vouch for them.
    pub open spec fn lasts_for(self, entry: EntryView, planned: nat) -> bool {
        self.has_room_for(entry) || self.within_plan(planned)
    }
}

/// The name of a directory that was given none.
pub open spec fn generated_dir_name(word: Seq<char>) -> Seq<char> {
    "dir-"@ + word
}

/// The name of a symlink to a directory that was given none.
pub open spec fn generated_symlink_name(word: Seq<char>) -> Seq<char> {
    "symlink-"@ + word
}

/// The name of a broken symlink that was given none.
pub open spec fn generated_broken_symlink_name(word: Seq<char>) -> Seq<char> {
    "broken-symlink-"@ + word
}

impl ContentView {
    /// What the generated name of a file ends in.
    pub open spec fn suffix(self) -> Seq<char> {
        match self {
            ContentView::Zeroed => ".zeroed"@,
            ContentView::Oned => ".oned"@,
            ContentView::Random(_) => ".random"@,
            ContentView::Custom(_) => ".custom"@,
        }
    }
}

/// The bytes of a random file of `size` bytes: the `size` bytes that the
/// generator gives for `seed`.
pub open spec fn random_bytes(seed: u64, size: nat) -> Seq<u8> {
    Seq::new(size, |i: int| seeded_bytes(seed, size)[i])
}

impl FileView {
    /// The number of bytes of the file: the size that was set, or the default.
    pub open spec fn resolved_size(self) -> nat {
        match self.size {
            Some(size) => size as nat,
            None => DEFAULT_FILE_SIZE as nat,
        }
    }

    /// The name under which the file is created.
    pub open spec fn resolved_name(self, word: Seq<char>) -> Seq<char> {
        match self.common.name {
            NameView::Explicit(text) => text,
            NameView::Generated(_) => "file-"@ + word + self.kind.suffix(),
        }
    }

    /// The bytes of the file; `seed` is used where the file is random and
    /// has no seed of its own.
    pub open spec fn bytes(self, seed: u64) -> Seq<u8> {
        match self.kind {
            ContentView::Zeroed => Seq::new(self.resolved_size(), |i: int| 0x00u8),
            ContentView::Oned => Seq::new(self.resolved_size(), |i: int| 0xFFu8),
            ContentView::Random(Some(own)) => random_bytes(own, self.resolved_size()),
            ContentView::Random(None) => random_bytes(seed, self.resolved_size()),
            ContentView::Custom(bytes) => bytes,
        }
    }

    /// The one operation that creates the file in `at`.
    pub open spec fn op(self, at: PathView, draw: DrawView) -> FsOpView {
        FsOpView::WriteFile {
            path: at.push(self.resolved_name(draw.word)),
            contents: self.bytes(draw.seed),
        }
    }
}

impl BrokenSymlinkView {
    /// The name under which the symlink is created.
    pub open spec fn resolved_name(self, word: Seq<char>) -> Seq<char> {
        match self.common.name {
            NameView::Explicit(text) => text,
            NameView::Generated(_) => generated_broken_symlink_name(word),
        }
    }

    /// The one operation that creates the symlink in `at`; it points at the
    /// place numbered `ordinal` among the targets of broken symlinks.
    pub open spec fn op(
        self,
        at: PathView,
        broken_symlinks: PathView,
        ordinal: nat,
        draw: DrawView,
    ) -> FsOpView {
        FsOpView::Symlink {
            original: broken_symlinks.push(broken_symlink_dest_name(ordinal)),
            link: at.push(self.resolved_name(draw.word)),
        }
    }
}

impl DirView {
    /// The name under which the directory itself is created: for a symlinked
    /// directory the one numbered `ordinal` among the targets of symlinks.
    pub open spec fn resolved_name(self, ordinal: nat, word: Seq<char>) -> Seq<char> {
        match self.kind {
            DirKind::Normal => match self.common.name {
                NameView::Explicit(text) => text,
                NameView::Generated(_) => generated_dir_name(word),
            },
            DirKind::Symlink => symlink_dest_name(ordinal),
        }
    }

    /// The name under which the symlink to a symlinked directory is created.
    pub open spec fn link_name(self, word: Seq<char>) -> Seq<char> {
        match self.common.name {
            NameView::Explicit(text) => text,
            NameView::Generated(_) => generated_symlink_name(word),
        }
    }

    /// Where the directory itself is created.
    pub open spec fn location(
        self,
        at: PathView,
        areas: Areas,
        ordinal: nat,
        word: Seq<char>,
    ) -> PathView {
        match self.kind {
            DirKind::Normal => at,
            DirKind::Symlink => areas.symlinks,
        }.push(self.resolved_name(ordinal, word))
    }

    /// How many entries the directory and all below it are.
    pub open spec fn nodes(self) -> nat
        decreases self, 1nat,
    {
        match self.entries {
            EntriesView::HasDuplicate(_) => 1,
            EntriesView::Valid(entries) => 1 + children_nodes(entries, 0),
        }
    }

    /// How many ordinals of `category` building the directory can use up.
    pub open spec fn demand(self, category: NameCategory) -> nat
        decreases self, 1nat,
    {
        match self.entries {
            EntriesView::HasDuplicate(_) => 0,
            EntriesView::Valid(entries) => children_demand(entries, 0, category) + if self.kind
                == DirKind::Symlink && category == NameCategory::SymlinkDest {
                1nat
            } else {
                0nat
            },
        }
    }

    /// Whether neither the directory nor any directory below it was given a
    /// name twice.
    pub open spec fn holds_no_duplicate(self) -> bool
        decreases self, 1nat,
    {
        match self.entries {
            EntriesView::HasDuplicate(_) => false,
            EntriesView::Valid(entries) => forall|k: int|
                0 <= k < entries.len() ==> (#[trigger] entries[k]).holds_no_duplicate(),
        }
    }

    /// The name at which building the directory fails: the one that it was
    /// given twice, else the one at which the first of its children fails.
    pub open spec fn first_duplicate(self) -> Option<Seq<char>>
        decreases self, 1nat,
    {
        match self.entries {
            EntriesView::HasDuplicate(name) => Some(name),
            EntriesView::Valid(entries) => children_first_duplicate(entries, 0),
        }
    }

    /// The course of building the directory in `at`.
    ///
    /// A directory that holds a duplicate fails at once, under the name that
    /// was given twice. Else the directory is created: a real one in `at`; a
    /// symlinked one among the targets of symlinks, under the next ordinal of
    /// that stream. Its children are built in it, in their order, up to the
    /// first that fails. After them a symlinked directory gets its symlink in
    /// `at`. The first of `draws` is for the directory, the rest for its
    /// children.
    pub open spec fn steps(
        self,
        at: PathView,
        areas: Areas,
        names: Counters,
        draws: Seq<DrawView>,
    ) -> Steps
        decreases self, 1nat,
    {
        match self.entries {
            EntriesView::HasDuplicate(name) => Steps {
                ops: Seq::empty(),
                names,
                failure: Some(name),
            },
            EntriesView::Valid(entries) => {
                let word = next_draw(draws).word;
                let location = self.location(at, areas, names.symlink_dest, word);
                let names = match self.kind {
                    DirKind::Normal => names,
                    DirKind::Symlink => names.advance(NameCategory::SymlinkDest, 1),
                };
                let left = draws_after(draws, 1);
                let inner = children_steps(entries, 0, location, areas, names, left);
                let created = seq![FsOpView::CreateDir { path: location }] + inner.ops;
                if inner.failure is None && self.kind == DirKind::Symlink {
                    Steps {
                        ops: created.push(
                            FsOpView::Symlink {
                                original: location,
                                link: at.push(self.link_name(word)),
                            },
                        ),
                        ..inner
                    }
                } else {
                    Steps { ops: created, ..inner }
                }
            },
        }
    }
}

impl EntryView {
    /// How many entries the entry and all below it are.
    pub open spec fn nodes(self) -> nat
        decreases self, 0nat,
    {
        match self {
            EntryView::Dir(dir) => dir.nodes(),
            EntryView::File(_) => 1,
            EntryView::BrokenSymlink(_) => 1,
        }
    }

    /// How many ordinals of `category` building the entry can use up: one per
    /// symlinked directory from the stream of their targets, one per broken
    /// symlink from the stream of theirs.
    pub open spec fn demand(self, category: NameCategory) -> nat
        decreases self, 0nat,
    {
        match self {
            EntryView::Dir(dir) => dir.demand(category),
            EntryView::File(_) => 0,
            EntryView::BrokenSymlink(_) => if category == NameCategory::BrokenSymlinkDest {
                1
            } else {
                0
            },
        }
    }

    /// Whether `draw` is what is drawn for the entry itself: where the entry
    /// has no name, two words joined by a hyphen, to make up its name from;
    /// where it is a random file that has no seed, a seed; and a blank for
    /// the rest.
    pub open spec fn draw_suits(self, draw: DrawView) -> bool {
        &&& self.name() is Generated ==> two_words(draw.word)
        &&& self.name() is Explicit ==> draw.word == Seq::<char>::empty()
        &&& !(self matches EntryView::File(file) && file.kind == ContentView::Random(None))
            ==> draw.seed == 0
    }

    /// Whether `draws` are what is drawn for the entry and all below it: one
    /// draw per entry, each entry before its children, the children in
    /// their order, and each draw one that suits its entry.
    pub open spec fn draws_suit(self, draws: Seq<DrawView>) -> bool
        decreases self, 0nat,
    {
        &&& draws.len() == self.nodes()
        &&& self.draw_suits(draws[0])
        &&& self matches EntryView::Dir(dir) ==> (dir.entries matches EntriesView::Valid(entries)
            ==> forall|k: int|
            0 <= k < entries.len() ==> (#[trigger] entries[k]).draws_suit(
                draws.subrange(
                    0 + 1 + nodes_before(entries, k),
                    0 + 1 + nodes_before(entries, k + 1),
                ),
            ))
    }

    /// Whether no directory of the entry was given a name twice.
    pub open spec fn holds_no_duplicate(self) -> bool
        decreases self, 0nat,
    {
        match self {
            EntryView::Dir(dir) => dir.holds_no_duplicate(),
            EntryView::File(_) => true,
            EntryView::BrokenSymlink(_) => true,
        }
    }

    /// The name at which building the entry fails: that of the first
    /// directory, in the order of the build, that was given a name twice.
    pub open spec fn first_duplicate(self) -> Option<Seq<char>>
        decreases self, 0nat,
    {
        match self {
            EntryView::Dir(dir) => dir.first_duplicate(),
            EntryView::File(_) => None,
            EntryView::BrokenSymlink(_) => None,
        }
    }

    /// The course of building the entry in `at`. The first of `draws` is for
    /// the entry, the rest for what lies below it.
    pub open spec fn steps(
        self,
        at: PathView,
        areas: Areas,
        names: Counters,
        draws: Seq<DrawView>,
    ) -> Steps
        decreases self, 0nat,
    {
        match self {
            EntryView::Dir(dir) => dir.steps(at, areas, names, draws),
            EntryView::File(file) => Steps {
                ops: seq![file.op(at, next_draw(draws))],
                names,
                failure: None,
            },
            EntryView::BrokenSymlink(link) => Steps {
                ops: seq![
                    link.op(at, areas.broken_symlinks, names.broken_symlink_dest, next_draw(draws)),
                ],
                names: names.advance(NameCategory::BrokenSymlinkDest, 1),
                failure: None,
            },
        }
    }
}

/// How many entries the children from the `from`-th on, and all below them, are.
pub open spec fn children_nodes(entries: Seq<EntryView>, from: int) -> nat
    decreases entries, entries.len() - from,
{
    if 0 <= from < entries.len() {
        entries[from].nodes() + children_nodes(entries, from + 1)
    } else {
        0
    }
}

/// How many entries the children before the `to`-th, and all below them, are.
pub open spec fn nodes_before(entries: Seq<EntryView>, to: int) -> int {
    children_nodes(entries, 0) - children_nodes(entries, to)
}

/// How many ordinals of `category` building the children from the `from`-th
/// on can use up.
pub open spec fn children_demand(entries: Seq<EntryView>, from: int, category: NameCategory) -> nat
    decreases entries, entries.len() - from,
{
    if 0 <= from < entries.len() {
        entries[from].demand(category) + children_demand(entries, from + 1, category)
    } else {
        0
    }
}

/// The name at which building the children from the `from`-th on fails.
pub open spec fn children_first_duplicate(entries: Seq<EntryView>, from: int) -> Option<Seq<char>>
    decreases entries, entries.len() - from,
{
    if 0 <= from < entries.len() {
        match entries[from].first_duplicate() {
            Some(name) => Some(name),
            None => children_first_duplicate(entries, from + 1),
        }
    } else {
        None
    }
}

/// The course of building the children from the `from`-th on in `at`, one
/// after the other, up to the first that fails.
pub open spec fn children_steps(
    entries: Seq<EntryView>,
    from: int,
    at: PathView,
    areas: Areas,
    names: Counters,
    draws: Seq<DrawView>,
) -> Steps
    decreases entries, entries.len() - from,
{
    if 0 <= from < entries.len() {
        let first = entries[from].steps(at, areas, names, draws);
        if first.failure is Some {
            first
        } else {
            let rest = children_steps(
                entries,
                from + 1,
                at,
                areas,
                first.names,
                draws_after(draws, entries[from].nodes()),
            );
            Steps { ops: first.ops + rest.ops, ..rest }
        }
    } else {
        Steps { ops: Seq::empty(), names, failure: None }
    }
}

/// Whether `after` is `before` with at most `symlink_dests` ordinals drawn
/// from the stream of the targets of symlinks and at most `broken_symlink_dests`
/// from that of broken symlinks; with exactly as many where `all` holds.
pub open spec fn drawn_within(
    before: Counters,
    after: Counters,
    symlink_dests: nat,
    broken_symlink_dests: nat,
    all: bool,
) -> bool {
    &&& after.entry == before.entry
    &&& before.symlink_dest <= after.symlink_dest <= before.symlink_dest + symlink_dests
    &&& before.broken_symlink_dest <= after.broken_symlink_dest <= before.broken_symlink_dest
        + broken_symlink_dests
    &&& all ==> after.symlink_dest == before.symlink_dest + symlink_dests
    &&& all ==> after.broken_symlink_dest == before.broken_symlink_dest + broken_symlink_dests
}

/// Building an entry draws from each stream no more ordinals than the entry
/// demands, and exactly as many where the build does not fail.
pub proof fn lemma_entry_draws_within_demand(
    entry: EntryView,
    at: PathView,
    areas: Areas,
    names: Counters,
    draws: Seq<DrawView>,
)
    ensures
        drawn_within(
            names,
            entry.steps(at, areas, names, draws).names,
            entry.demand(NameCategory::SymlinkDest),
            entry.demand(NameCategory::BrokenSymlinkDest),
            entry.steps(at, areas, names, draws).failure is None,
        ),
    decreases entry, 0nat,
{
    if let EntryView::Dir(dir) = entry {
        lemma_dir_draws_within_demand(dir, at, areas, names, draws);
    }
}

/// Building a directory draws from each stream no more ordinals than the
/// directory demands, and exactly as many where the build does not fail.
pub proof fn lemma_dir_draws_within_demand(
    dir: DirView,
    at: PathView,
    areas: Areas,
    names: Counters,
    draws: Seq<DrawView>,
)
    ensures
        drawn_within(
            names,
            dir.steps(at, areas, names, draws).names,
            dir.demand(NameCategory::SymlinkDest),
            dir.demand(NameCategory::BrokenSymlinkDest),
            dir.steps(at, areas, names, draws).failure is None,
        ),
    decreases dir, 1nat,
{
    if let EntriesView::Valid(entries) = dir.entries {
        let word = next_draw(draws).word;
        let location = dir.location(at, areas, names.symlink_dest, word);
        let inner_names = match dir.kind {
            DirKind::Normal => names,
            DirKind::Symlink => names.advance(NameCategory::SymlinkDest, 1),
        };
        lemma_children_draw_within_demand(
            entries,
            0,
            location,
            areas,
            inner_names,
            draws_after(draws, 1),
        );
    }
}

/// Building children draws from each stream no more ordinals than they
/// demand, and exactly as many where the build does not fail.
pub proof fn lemma_children_draw_within_demand(
    entries: Seq<EntryView>,
    from: int,
    at: PathView,
    areas: Areas,
    names: Counters,
    draws: Seq<DrawView>,
)
    ensures
        drawn_within(
            names,
            children_steps(entries, from, at, areas, names, draws).names,
            children_demand(entries, from, NameCategory::SymlinkDest),
            children_demand(entries, from, NameCategory::BrokenSymlinkDest),
            children_steps(entries, from, at, areas, names, draws).failure is None,
        ),
    decreases entries, entries.len() - from,
{
    if 0 <= from < entries.len() {
        lemma_entry_draws_within_demand(entries[from], at, areas, names, draws);
        let first = entries[from].steps(at, areas, names, draws);
        if first.failure is None {
            lemma_children_draw_within_demand(
                entries,
                from + 1,
                at,
                areas,
                first.names,
                draws_after(draws, entries[from].nodes()),
            );
        }
    }
}

/// Whether a build fails, and at which name, is a matter of the description
/// alone: neither the places, nor the ordinals, nor what was drawn bear on it.
pub proof fn lemma_entry_fails_at_first_duplicate(
    entry: EntryView,
    at: PathView,
    areas: Areas,
    names: Counters,
    draws: Seq<DrawView>,
)
    ensures
        entry.steps(at, areas, names, draws).failure == entry.first_duplicate(),
    decreases entry, 0nat,
{
    if let EntryView::Dir(dir) = entry {
        lemma_dir_fails_at_first_duplicate(dir, at, areas, names, draws);
    }
}

/// A directory fails at the name it was given twice, else where the first
/// of its children fails.
pub proof fn lemma_dir_fails_at_first_duplicate(
    dir: DirView,
    at: PathView,
    areas: Areas,
    names: Counters,
    draws: Seq<DrawView>,
)
    ensures
        dir.steps(at, areas, names, draws).failure == dir.first_duplicate(),
    decreases dir, 1nat,
{
    if let EntriesView::Valid(entries) = dir.entries {
        let location = dir.location(at, areas, names.symlink_dest, next_draw(draws).word);
        let inner_names = match dir.kind {
            DirKind::Normal => names,
            DirKind::Symlink => names.advance(NameCategory::SymlinkDest, 1),
        };
        lemma_children_fail_at_first_duplicate(
            entries,
            0,
            location,
            areas,
            inner_names,
            draws_after(draws, 1),
        );
    }
}

/// Children fail where the first of them fails.
pub proof fn lemma_children_fail_at_first_duplicate(
    entries: Seq<EntryView>,
    from: int,
    at: PathView,
    areas: Areas,
    names: Counters,
    draws: Seq<DrawView>,
)
    ensures
        children_steps(entries, from, at, areas, names, draws).failure
            == children_first_duplicate(entries, from),
    decreases entries, entries.len() - from,
{
    if 0 <= from < entries.len() {
        lemma_entry_fails_at_first_duplicate(entries[from], at, areas, names, draws);
        let first = entries[from].steps(at, areas, names, draws);
        if first.failure is None {
            lemma_children_fail_at_first_duplicate(
                entries,
                from + 1,
                at,
                areas,
                first.names,
                draws_after(draws, entries[from].nodes()),
            );
        }
    }
}

/// The more children are counted, the more entries they are: from nothing
/// for no children up to all the entries below the directory.
pub proof fn lemma_nodes_before_grows(entries: Seq<EntryView>, fewer: int, more: int)
    requires
        0 <= fewer <= more <= entries.len(),
    ensures
        0 <= nodes_before(entries, fewer) <= nodes_before(entries, more) <= children_nodes(
            entries,
            0,
        ),
        nodes_before(entries, 0) == 0,
        fewer < entries.len() ==> nodes_before(entries, fewer + 1) == nodes_before(entries, fewer)
            + entries[fewer].nodes(),
    decreases more - fewer,
{
    if fewer < more {
        lemma_nodes_before_grows(entries, fewer + 1, more);
    }
    lemma_children_nodes_shrink(entries, 0, fewer);
}

/// The later the first child that is counted, the fewer entries there are.
proof fn lemma_children_nodes_shrink(entries: Seq<EntryView>, early: int, late: int)
    requires
        0 <= early <= late <= entries.len(),
    ensures
        children_nodes(entries, late) <= children_nodes(entries, early),
    decreases late - early,
{
    if early < late {
        lemma_children_nodes_shrink(entries, early + 1, late);
    }
}

/// Whether, behind the first `start` of `draws` and one more, the draws for
/// the first `count` children follow, child by child, each suiting its child.
pub open spec fn children_draws_suit(
    entries: Seq<EntryView>,
    count: int,
    start: int,
    draws: Seq<DrawView>,
) -> bool {
    forall|k: int|
        0 <= k < count ==> (#[trigger] entries[k]).draws_suit(
            draws.subrange(
                start + 1 + nodes_before(entries, k),
                start + 1 + nodes_before(entries, k + 1),
            ),
        )
}

/// A stretch of what is left of `draws` behind the first `start` is the
/// stretch of `draws` that lies `start` further on.
proof fn lemma_stretch_behind(draws: Seq<DrawView>, start: int, low: int, high: int)
    requires
        0 <= start,
        0 <= low <= high,
        start + high <= draws.len(),
    ensures
        draws.skip(start).subrange(low, high) == draws.subrange(start + low, start + high),
{
    assert(draws.skip(start).subrange(low, high) =~= draws.subrange(start + low, start + high));
}

/// A stretch of `after` that ends within its first `kept` draws is the same
/// stretch of those first draws.
proof fn lemma_stretch_within(after: Seq<DrawView>, kept: int, low: int, high: int)
    requires
        0 <= low <= high <= kept <= after.len(),
    ensures
        after.subrange(low, high) == after.take(kept).subrange(low, high),
{
    assert(after.subrange(low, high) =~= after.take(kept).subrange(low, high));
}

/// Draws that suit the first children still do so after the draws for the
/// next child were put behind them.
pub proof fn lemma_draws_suit_one_more(
    entries: Seq<EntryView>,
    count: int,
    start: int,
    before: Seq<DrawView>,
    after: Seq<DrawView>,
)
    requires
        0 <= count < entries.len(),
        0 <= start,
        before.len() == start + 1 + nodes_before(entries, count),
        after.len() == before.len() + entries[count].nodes(),
        after.take(before.len() as int) == before,
        entries[count].draws_suit(after.skip(before.len() as int)),
        children_draws_suit(entries, count, start, before),
    ensures
        after.len() == start + 1 + nodes_before(entries, count + 1),
        after.take(start) == before.take(start),
        after[start] == before[start],
        children_draws_suit(entries, count + 1, start, after),
{
    lemma_nodes_before_grows(entries, 0, count);
    lemma_nodes_before_grows(entries, count, count + 1);
    assert(after.take(start) =~= after.take(before.len() as int).take(start));
    assert(after[start] == after.take(before.len() as int)[start]);
    assert forall|k: int| 0 <= k < count + 1 implies (#[trigger] entries[k]).draws_suit(
        after.subrange(
            start + 1 + nodes_before(entries, k),
            start + 1 + nodes_before(entries, k + 1),
        ),
    ) by {
        let low = start + 1 + nodes_before(entries, k);
        let high = start + 1 + nodes_before(entries, k + 1);
        lemma_nodes_before_grows(entries, 0, k);
        lemma_nodes_before_grows(entries, k, k + 1);
        if k < count {
            lemma_nodes_before_grows(entries, k + 1, count);
            lemma_stretch_within(after, before.len() as int, low, high);
        } else {
            assert(after.subrange(low, high) =~= after.skip(before.len() as int));
        }
    }
}

/// Draws that suit a directory and, behind it, each of its children suit
/// the directory and all below it.
#[verifier::rlimit(50)]
pub proof fn lemma_draws_suit_all(entries: Seq<EntryView>, start: int, draws: Seq<DrawView>)
    requires
        0 <= start,
        draws.len() == start + 1 + nodes_before(entries, entries.len() as int),
        children_draws_suit(entries, entries.len() as int, start, draws),
    ensures
        draws.skip(start).len() == 1 + children_nodes(entries, 0),
        draws.skip(start)[0] == draws[start],
        children_draws_suit(entries, entries.len() as int, 0, draws.skip(start)),
{
    lemma_nodes_before_grows(entries, 0, entries.len() as int);
    assert forall|k: int| 0 <= k < entries.len() implies (#[trigger] entries[k]).draws_suit(
        draws.skip(start).subrange(
            0 + 1 + nodes_before(entries, k),
            0 + 1 + nodes_before(entries, k + 1),
        ),
    ) by {
        lemma_nodes_before_grows(entries, 0, k);
        lemma_nodes_before_grows(entries, k, k + 1);
        lemma_nodes_before_grows(entries, k + 1, entries.len() as int);
        lemma_stretch_behind(
            draws,
            start,
            1 + nodes_before(entries, k),
            1 + nodes_before(entries, k + 1),
        );
    }
}

/// How many targets were numbered between two states of the streams.
pub open spec fn targets_between(before: Counters, after: Counters) -> int {
    (after.symlink_dest - before.symlink_dest) + (after.broken_symlink_dest
        - before.broken_symlink_dest)
}

/// Building an entry numbers no more targets than it plans operations.
pub proof fn lemma_entry_plans_every_target(
    entry: EntryView,
    at: PathView,
    areas: Areas,
    names: Counters,
    draws: Seq<DrawView>,
)
    ensures
        targets_between(names, entry.steps(at, areas, names, draws).names) <= entry.steps(
            at,
            areas,
            names,
            draws,
        ).ops.len(),
    decreases entry, 0nat,
{
    if let EntryView::Dir(dir) = entry {
        lemma_dir_plans_every_target(dir, at, areas, names, draws);
    }
}

/// Building a directory numbers no more targets than it plans operations.
pub proof fn lemma_dir_plans_every_target(
    dir: DirView,
    at: PathView,
    areas: Areas,
    names: Counters,
    draws: Seq<DrawView>,
)
    ensures
        targets_between(names, dir.steps(at, areas, names, draws).names) <= dir.steps(
            at,
            areas,
            names,
            draws,
        ).ops.len(),
    decreases dir, 1nat,
{
    if let EntriesView::Valid(entries) = dir.entries {
        let location = dir.location(at, areas, names.symlink_dest, next_draw(draws).word);
        let inner_names = match dir.kind {
            DirKind::Normal => names,
            DirKind::Symlink => names.advance(NameCategory::SymlinkDest, 1),
        };
        lemma_children_plan_every_target(
            entries,
            0,
            location,
            areas,
            inner_names,
            draws_after(draws, 1),
        );
    }
}

/// Building children numbers no more targets than it plans operations.
pub proof fn lemma_children_plan_every_target(
    entries: Seq<EntryView>,
    from: int,
    at: PathView,
    areas: Areas,
    names: Counters,
    draws: Seq<DrawView>,
)
    ensures
        targets_between(names, children_steps(entries, from, at, areas, names, draws).names)
            <= children_steps(entries, from, at, areas, names, draws).ops.len(),
    decreases entries, entries.len() - from,
{
    if 0 <= from < entries.len() {
        lemma_entry_plans_every_target(entries[from], at, areas, names, draws);
        let first = entries[from].steps(at, areas, names, draws);
        if first.failure is None {
            lemma_children_plan_every_target(
                entries,
                from + 1,
                at,
                areas,
                first.names,
                draws_after(draws, entries[from].nodes()),
            );
        }
    }
}

} // verus!
