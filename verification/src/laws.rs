//! What holds of every description and of every build.

use vstd::prelude::*;

use crate::model::{
    has_name, lemma_next_ordinal_goes_last, lemma_with_entry_wf, rank, ContentView, DirKind,
    DirView, EntriesView, EntryView, FileView,
};
use crate::names::{symlink_dest_name, Counters, NameCategory};
use crate::order::{lemma_before_irreflexive, NameView};
use crate::plan::{draws_after, next_draw, DrawView, FsOpView, PathView};
use crate::steps::{
    children_first_duplicate, children_steps, lemma_dir_fails_at_first_duplicate, Areas,
};

verus! {

/// The ordinals of a stream strictly increase: what is drawn later is
/// greater, so no ordinal is drawn twice; and drawing from one stream leaves
/// the others as they are.
pub proof fn lemma_ordinals_never_repeat(
    names: Counters,
    category: NameCategory,
    earlier: nat,
    later: nat,
    other: NameCategory,
)
    requires
        earlier < later,
        other != category,
    ensures
        names.advance(category, earlier).peek(category) < names.advance(category, later).peek(
            category,
        ),
        names.advance(category, later).peek(other) == names.peek(other),
        names.advance(category, earlier).advance(category, 1) == names.advance(
            category,
            earlier + 1,
        ),
{
}

/// Names that are made one after the other with one allocator differ, and
/// the later made stands behind the earlier.
pub proof fn lemma_fresh_names_differ(names: Counters, earlier: nat, later: nat)
    requires
        earlier < later,
    ensures
        NameView::Generated(names.advance(NameCategory::Entry, earlier).entry)
            != NameView::Generated(names.advance(NameCategory::Entry, later).entry),
        NameView::Generated(names.advance(NameCategory::Entry, earlier).entry).before(
            NameView::Generated(names.advance(NameCategory::Entry, later).entry),
        ),
{
}

/// The copy of a generated name differs from the name it was made from, and
/// from every other name that was made with the allocator before; the copy
/// of an explicit name is that name.
pub proof fn lemma_copied_name_is_new(name: NameView, made_before: NameView, names: Counters)
    requires
        made_before matches NameView::Generated(ordinal) ==> ordinal < names.entry,
    ensures
        name is Generated ==> name.renumbered(names.entry) != made_before,
        name is Explicit ==> name.renumbered(names.entry) == name,
{
}

/// An entry none of whose directories was given a name twice can be built:
/// the build does not fail.
pub proof fn lemma_no_duplicate_never_fails(entry: EntryView)
    requires
        entry.holds_no_duplicate(),
    ensures
        entry.first_duplicate() is None,
    decreases entry,
{
    if let EntryView::Dir(dir) = entry {
        if let EntriesView::Valid(entries) = dir.entries {
            lemma_children_without_duplicate_never_fail(entries, 0);
        }
    }
}

/// Children none of whose directories was given a name twice can be built.
pub proof fn lemma_children_without_duplicate_never_fail(entries: Seq<EntryView>, from: int)
    requires
        forall|k: int| 0 <= k < entries.len() ==> (#[trigger] entries[k]).holds_no_duplicate(),
    ensures
        children_first_duplicate(entries, from) is None,
    decreases entries, entries.len() - from,
{
    if 0 <= from < entries.len() {
        lemma_no_duplicate_never_fails(entries[from]);
        lemma_children_without_duplicate_never_fail(entries, from + 1);
    }
}

/// A tree that is put together from entries without names never fails for a
/// name given twice: a well-formed directory that can be built still can
/// after it took in an entry without a name that can be built. An empty
/// directory can be built, so this holds of every directory that took in
/// nothing but such entries, at every depth.
pub proof fn lemma_unnamed_entries_never_fail(dir: DirView, entry: EntryView)
    requires
        dir.wf(),
        dir.holds_no_duplicate(),
        entry.holds_no_duplicate(),
        entry.name() is Generated,
    ensures
        dir.with_entry(entry).holds_no_duplicate(),
        dir.with_entry(entry).first_duplicate() is None,
{
    lemma_unnamed_entry_goes_last(dir, entry);
    let entries = dir.entries->Valid_0;
    let adopted = entry.adopted(dir.next_ordinal);
    let grown = entries.push(adopted);
    assert(adopted.holds_no_duplicate());
    assert forall|k: int| 0 <= k < grown.len() implies (
    #[trigger] grown[k]).holds_no_duplicate() by {
        if k < entries.len() {
            assert(grown[k] == entries[k]);
        }
    }
    lemma_no_duplicate_never_fails(EntryView::Dir(dir.with_entry(entry)));
}

/// No two children of a well-formed directory go by one name.
pub proof fn lemma_children_names_differ(dir: DirView, first: int, second: int)
    requires
        dir.wf(),
        dir.entries is Valid,
        0 <= first < dir.entries->Valid_0.len(),
        0 <= second < dir.entries->Valid_0.len(),
        first != second,
    ensures
        dir.entries->Valid_0[first].name() != dir.entries->Valid_0[second].name(),
{
    let entries = dir.entries->Valid_0;
    lemma_before_irreflexive(entries[first].name());
    if first < second {
        assert(entries[first].name().before(entries[second].name()));
    } else {
        assert(entries[second].name().before(entries[first].name()));
    }
}

/// A directory that took in an entry by an explicit name holds a child of
/// that name, or holds a duplicate.
pub proof fn lemma_named_entry_is_held(dir: DirView, entry: EntryView)
    requires
        entry.name() is Explicit,
    ensures
        match dir.with_entry(entry).entries {
            EntriesView::Valid(entries) => has_name(entries, entry.name()),
            EntriesView::HasDuplicate(_) => true,
        },
{
    if let EntriesView::Valid(entries) = dir.entries {
        if !has_name(entries, entry.name()) {
            let at = rank(entries, entry.name()) as int;
            lemma_rank_is_within(entries, entry.name());
            assert(entries.insert(at, entry)[at].name() == entry.name());
        }
    }
}

/// No more children stand before a name than there are children.
pub proof fn lemma_rank_is_within(entries: Seq<EntryView>, name: NameView)
    ensures
        rank(entries, name) <= entries.len(),
    decreases entries.len(),
{
    if entries.len() > 0 {
        lemma_rank_is_within(entries.drop_last(), name);
    }
}

/// A directory that holds a child of some name and takes in another entry
/// still holds a child of that name, or holds a duplicate.
pub proof fn lemma_held_name_stays(dir: DirView, name: NameView, entry: EntryView)
    requires
        dir.entries matches EntriesView::Valid(entries) && has_name(entries, name),
    ensures
        match dir.with_entry(entry).entries {
            EntriesView::Valid(entries) => has_name(entries, name),
            EntriesView::HasDuplicate(_) => true,
        },
{
    let entries = dir.entries->Valid_0;
    let adopted = entry.adopted(dir.next_ordinal);
    if let EntriesView::Valid(grown) = dir.with_entry(entry).entries {
        let at = rank(entries, adopted.name()) as int;
        lemma_rank_is_within(entries, adopted.name());
        let held = choose|i: int| 0 <= i < entries.len() && (#[trigger] entries[i]).name() == name;
        let moved = if held < at {
            held
        } else {
            held + 1
        };
        assert(grown[moved] == entries[held]);
    }
}

/// A directory that takes in an entry by an explicit name that one of its
/// children has holds a duplicate from then on: that name.
pub proof fn lemma_taken_name_is_duplicate(dir: DirView, entry: EntryView)
    requires
        dir.entries matches EntriesView::Valid(entries) && has_name(entries, entry.name()),
        entry.name() is Explicit,
    ensures
        dir.with_entry(entry).entries == EntriesView::HasDuplicate(entry.name()->Explicit_0),
{
}

/// A directory that holds a duplicate takes in nothing more.
pub proof fn lemma_duplicate_is_kept(dir: DirView, entry: EntryView)
    requires
        dir.entries is HasDuplicate,
    ensures
        dir.with_entry(entry) == dir,
{
}

/// A directory that takes in two entries of one explicit name holds a
/// duplicate, whatever the two entries are and whichever comes first.
pub proof fn lemma_same_name_twice_is_duplicate(dir: DirView, first: EntryView, second: EntryView)
    requires
        first.name() is Explicit,
        first.name() == second.name(),
    ensures
        dir.with_entry(first).with_entry(second).entries is HasDuplicate,
        dir.with_entry(second).with_entry(first).entries is HasDuplicate,
{
    lemma_named_entry_is_held(dir, first);
    lemma_named_entry_is_held(dir, second);
}

/// A directory that holds a duplicate cannot be built: the build fails at
/// once, with the name that was given twice, and nothing is done for it.
pub proof fn lemma_duplicate_fails(
    dir: DirView,
    at: PathView,
    areas: Areas,
    names: Counters,
    draws: Seq<DrawView>,
)
    requires
        dir.entries is HasDuplicate,
    ensures
        dir.steps(at, areas, names, draws).failure == Some(dir.entries->HasDuplicate_0),
        dir.steps(at, areas, names, draws).ops.len() == 0,
        dir.steps(at, areas, names, draws).names == names,
{
}

/// A directory that takes in two entries of one explicit name cannot be
/// built afterwards, whatever the two entries are, whichever comes first,
/// and wherever and with whatever it is built.
pub proof fn lemma_same_name_twice_fails(
    dir: DirView,
    first: EntryView,
    second: EntryView,
    at: PathView,
    areas: Areas,
    names: Counters,
    draws: Seq<DrawView>,
)
    requires
        first.name() is Explicit,
        first.name() == second.name(),
    ensures
        dir.with_entry(first).with_entry(second).steps(at, areas, names, draws).failure is Some,
        dir.with_entry(second).with_entry(first).steps(at, areas, names, draws).failure is Some,
{
    lemma_same_name_twice_is_duplicate(dir, first, second);
}

/// A directory one of whose children cannot be built cannot be built itself.
pub proof fn lemma_failure_of_child_fails_parent(
    dir: DirView,
    child: int,
    at: PathView,
    areas: Areas,
    names: Counters,
    draws: Seq<DrawView>,
)
    requires
        dir.entries is Valid,
        0 <= child < dir.entries->Valid_0.len(),
        dir.entries->Valid_0[child].first_duplicate() is Some,
    ensures
        dir.steps(at, areas, names, draws).failure is Some,
{
    lemma_dir_fails_at_first_duplicate(dir, at, areas, names, draws);
    lemma_failure_among_children(dir.entries->Valid_0, 0, child);
}

/// Children of whom one cannot be built cannot be built.
proof fn lemma_failure_among_children(entries: Seq<EntryView>, from: int, child: int)
    requires
        0 <= from <= child < entries.len(),
        entries[child].first_duplicate() is Some,
    ensures
        children_first_duplicate(entries, from) is Some,
    decreases child - from,
{
    if from < child {
        lemma_failure_among_children(entries, from + 1, child);
    }
}

/// A well-formed directory that holds no duplicate takes in every entry
/// without a name: it holds no duplicate afterwards, and the entry is its
/// last child, under the ordinal that was the directory's next.
pub proof fn lemma_unnamed_entry_goes_last(dir: DirView, entry: EntryView)
    requires
        dir.wf(),
        dir.entries is Valid,
        entry.name() is Generated,
    ensures
        dir.with_entry(entry).entries == EntriesView::Valid(
            dir.entries->Valid_0.push(entry.adopted(dir.next_ordinal)),
        ),
        dir.with_entry(entry).next_ordinal == dir.next_ordinal + 1,
{
    let entries = dir.entries->Valid_0;
    lemma_next_ordinal_goes_last(entries, dir.next_ordinal);
    let adopted = entry.adopted(dir.next_ordinal);
    assert(entries.insert(entries.len() as int, adopted) =~= entries.push(adopted));
}

/// A well-formed directory that holds no duplicate takes in two entries
/// without names: it holds no duplicate afterwards, and both are children of
/// it, under two ordinals.
pub proof fn lemma_two_unnamed_entries_are_held(dir: DirView, first: EntryView, second: EntryView)
    requires
        dir.wf(),
        first.wf(),
        dir.entries is Valid,
        first.name() is Generated,
        second.name() is Generated,
    ensures
        dir.with_entry(first).with_entry(second).entries == EntriesView::Valid(
            dir.entries->Valid_0.push(first.adopted(dir.next_ordinal)).push(
                second.adopted(dir.next_ordinal + 1),
            ),
        ),
        first.adopted(dir.next_ordinal).name() != second.adopted(dir.next_ordinal + 1).name(),
{
    lemma_unnamed_entry_goes_last(dir, first);
    lemma_with_entry_wf(dir, first);
    lemma_unnamed_entry_goes_last(dir.with_entry(first), second);
}

/// A file of given bytes is written with exactly those bytes.
pub proof fn lemma_custom_bytes_are_kept(file: FileView, bytes: Seq<u8>, seed: u64)
    requires
        file.kind == ContentView::Custom(bytes),
    ensures
        file.bytes(seed) == bytes,
{
}

/// A zeroed file of some size is written with that many bytes, each `0x00`;
/// a oned file with that many bytes, each `0xFF`.
pub proof fn lemma_filled_bytes(file: FileView, size: usize, seed: u64)
    requires
        file.size == Some(size),
        file.kind is Zeroed || file.kind is Oned,
    ensures
        file.bytes(seed).len() == size,
        forall|i: int|
            0 <= i < size ==> #[trigger] file.bytes(seed)[i] == if file.kind is Zeroed {
                0x00u8
            } else {
                0xFFu8
            },
{
}

/// A file that is not one of given bytes is written with as many bytes as
/// its size says: the size that was set, else the default. That goes for
/// random files too, with or without a seed of their own.
pub proof fn lemma_file_has_its_size(file: FileView, seed: u64)
    requires
        !(file.kind is Custom),
    ensures
        file.bytes(seed).len() == file.resolved_size(),
{
}

/// The bytes of a random file with a seed of its own depend on nothing but
/// that seed and the size of the file.
pub proof fn lemma_seeded_bytes_repeat(
    first: FileView,
    second: FileView,
    seed: u64,
    first_drawn: u64,
    second_drawn: u64,
)
    requires
        first.kind == ContentView::Random(Some(seed)),
        second.kind == ContentView::Random(Some(seed)),
        first.resolved_size() == second.resolved_size(),
    ensures
        first.bytes(first_drawn) == second.bytes(second_drawn),
{
}

/// Building a symlinked directory creates a directory among the targets of
/// symlinks, builds the children in that directory, and last creates, where
/// the directory was to stand, a symlink to it.
pub proof fn lemma_symlinked_dir_lies_among_targets(
    dir: DirView,
    at: PathView,
    areas: Areas,
    names: Counters,
    draws: Seq<DrawView>,
)
    requires
        dir.kind == DirKind::Symlink,
        dir.entries is Valid,
        dir.steps(at, areas, names, draws).failure is None,
    ensures
        ({
            let ops = dir.steps(at, areas, names, draws).ops;
            let target = areas.symlinks.push(symlink_dest_name(names.symlink_dest));
            let children = children_steps(
                dir.entries->Valid_0,
                0,
                target,
                areas,
                names.advance(NameCategory::SymlinkDest, 1),
                draws_after(draws, 1),
            );
            &&& ops.len() == children.ops.len() + 2
            &&& ops.first() == FsOpView::CreateDir { path: target }
            &&& ops.subrange(1, ops.len() - 1) == children.ops
            &&& ops.last() == FsOpView::Symlink {
                original: target,
                link: at.push(dir.link_name(next_draw(draws).word)),
            }
        }),
{
    let ops = dir.steps(at, areas, names, draws).ops;
    let target = areas.symlinks.push(symlink_dest_name(names.symlink_dest));
    let children = children_steps(
        dir.entries->Valid_0,
        0,
        target,
        areas,
        names.advance(NameCategory::SymlinkDest, 1),
        draws_after(draws, 1),
    );
    assert(ops.subrange(1, ops.len() - 1) =~= children.ops);
}

} // verus!
