//! Where a build puts things: everything it creates lies in the place it
//! was told to build in or among the targets of symlinks, and nothing ever
//! lies where a broken symlink points.

use vstd::prelude::*;

use crate::model::{DirKind, DirView, EntriesView, EntryView};
use crate::names::{
    broken_symlink_dest_name, decimal, lemma_decimal_injective, symlink_dest_name, Counters,
    NameCategory,
};
use crate::plan::{draws_after, next_draw, DrawView, FsOpView, PathView};
use crate::steps::{
    children_steps, lemma_children_draw_within_demand, lemma_entry_draws_within_demand, Areas,
};

verus! {

/// The path at which an operation creates something.
pub open spec fn created_path(op: FsOpView) -> PathView {
    match op {
        FsOpView::CreateDir { path } => path,
        FsOpView::WriteFile { path, .. } => path,
        FsOpView::Symlink { link, .. } => link,
    }
}

/// Whether `path` lies below `place`: leads through it, and further.
pub open spec fn below(path: PathView, place: PathView) -> bool {
    place.len() < path.len() && place.is_prefix_of(path)
}

/// Whether each of `ops` creates something below `at` or below `symlinks`.
pub open spec fn all_created_below(ops: Seq<FsOpView>, at: PathView, symlinks: PathView) -> bool {
    forall|i: int|
        0 <= i < ops.len() ==> below(created_path(#[trigger] ops[i]), at) || below(
            created_path(ops[i]),
            symlinks,
        )
}

/// What lies one step below a place lies below it, and so does all that
/// lies below that.
pub proof fn lemma_below_step(path: PathView, place: PathView, name: Seq<char>)
    ensures
        below(place.push(name), place),
        below(path, place.push(name)) ==> below(path, place),
{
    assert(place.push(name).subrange(0, place.len() as int) =~= place);
    if below(path, place.push(name)) {
        assert(path.subrange(0, place.len() as int) =~= path.subrange(
            0,
            place.len() as int + 1,
        ).subrange(0, place.len() as int));
    }
}

/// Everything that building an entry creates lies below the place it is
/// built in, or below the place of the targets of symlinks.
pub proof fn lemma_entry_creates_below(
    entry: EntryView,
    at: PathView,
    areas: Areas,
    names: Counters,
    draws: Seq<DrawView>,
)
    ensures
        all_created_below(entry.steps(at, areas, names, draws).ops, at, areas.symlinks),
    decreases entry, 0nat,
{
    match entry {
        EntryView::Dir(dir) => {
            lemma_dir_creates_below(dir, at, areas, names, draws);
        },
        EntryView::File(file) => {
            lemma_below_step(at, at, file.resolved_name(next_draw(draws).word));
        },
        EntryView::BrokenSymlink(link) => {
            lemma_below_step(at, at, link.resolved_name(next_draw(draws).word));
        },
    }
}

/// Everything that building a directory creates lies below the place it is
/// built in, or below the place of the targets of symlinks.
pub proof fn lemma_dir_creates_below(
    dir: DirView,
    at: PathView,
    areas: Areas,
    names: Counters,
    draws: Seq<DrawView>,
)
    ensures
        all_created_below(dir.steps(at, areas, names, draws).ops, at, areas.symlinks),
    decreases dir, 1nat,
{
    if let EntriesView::Valid(entries) = dir.entries {
        let word = next_draw(draws).word;
        let own = dir.resolved_name(names.symlink_dest, word);
        let location = dir.location(at, areas, names.symlink_dest, word);
        let inner_names = match dir.kind {
            DirKind::Normal => names,
            DirKind::Symlink => names.advance(NameCategory::SymlinkDest, 1),
        };
        let inner = children_steps(entries, 0, location, areas, inner_names, draws_after(draws, 1));
        lemma_children_create_below(
            entries,
            0,
            location,
            areas,
            inner_names,
            draws_after(draws, 1),
        );
        lemma_below_step(at, at, own);
        lemma_below_step(at, areas.symlinks, own);
        lemma_below_step(at, at, dir.link_name(word));
        let ops = dir.steps(at, areas, names, draws).ops;
        assert forall|i: int| 0 <= i < ops.len() implies below(created_path(#[trigger] ops[i]), at)
            || below(created_path(ops[i]), areas.symlinks) by {
            if 1 <= i <= inner.ops.len() {
                assert(ops[i] == inner.ops[i - 1]);
                let path = created_path(inner.ops[i - 1]);
                match dir.kind {
                    DirKind::Normal => lemma_below_step(path, at, own),
                    DirKind::Symlink => lemma_below_step(path, areas.symlinks, own),
                }
            }
        }
    }
}

/// Everything that building children creates lies below the place they are
/// built in, or below the place of the targets of symlinks.
pub proof fn lemma_children_create_below(
    entries: Seq<EntryView>,
    from: int,
    at: PathView,
    areas: Areas,
    names: Counters,
    draws: Seq<DrawView>,
)
    ensures
        all_created_below(
            children_steps(entries, from, at, areas, names, draws).ops,
            at,
            areas.symlinks,
        ),
    decreases entries, entries.len() - from,
{
    if 0 <= from < entries.len() {
        lemma_entry_creates_below(entries[from], at, areas, names, draws);
        let first = entries[from].steps(at, areas, names, draws);
        if first.failure is None {
            let rest = children_steps(
                entries,
                from + 1,
                at,
                areas,
                first.names,
                draws_after(draws, entries[from].nodes()),
            );
            lemma_children_create_below(
                entries,
                from + 1,
                at,
                areas,
                first.names,
                draws_after(draws, entries[from].nodes()),
            );
            let ops = first.ops + rest.ops;
            assert forall|i: int| 0 <= i < ops.len() implies below(
                created_path(#[trigger] ops[i]),
                at,
            ) || below(created_path(ops[i]), areas.symlinks) by {
                if i < first.ops.len() {
                    assert(ops[i] == first.ops[i]);
                } else {
                    assert(ops[i] == rest.ops[i - first.ops.len()]);
                }
            }
        }
    }
}

/// The name of the target numbered `ordinal` in the stream of `category`.
pub open spec fn dest_name(category: NameCategory, ordinal: nat) -> Seq<char> {
    match category {
        NameCategory::Entry => decimal(ordinal),
        NameCategory::SymlinkDest => symlink_dest_name(ordinal),
        NameCategory::BrokenSymlinkDest => broken_symlink_dest_name(ordinal),
    }
}

/// Whether `op` is what brings in the target called `name`: for the targets
/// of symlinks, the operation that creates the directory of that name among
/// them; for the targets of broken symlinks, the operation that creates a
/// symlink to the place of that name among them.
pub open spec fn targets(
    op: FsOpView,
    category: NameCategory,
    areas: Areas,
    name: Seq<char>,
) -> bool {
    match category {
        NameCategory::Entry => false,
        NameCategory::SymlinkDest => op == (FsOpView::CreateDir {
            path: areas.symlinks.push(name),
        }),
        NameCategory::BrokenSymlinkDest => op is Symlink && op->original
            == areas.broken_symlinks.push(name),
    }
}

/// Whether every target that `ops` bring in is numbered, from `low` on and
/// below `high`.
pub open spec fn targets_numbered(
    ops: Seq<FsOpView>,
    category: NameCategory,
    areas: Areas,
    low: nat,
    high: nat,
) -> bool {
    forall|i: int, name: Seq<char>|
        0 <= i < ops.len() && #[trigger] targets(ops[i], category, areas, name) ==> exists|
            ordinal: nat,
        |
            low <= ordinal < high && name == #[trigger] dest_name(category, ordinal)
}

/// Whether no two of `ops` bring in a target of the same name.
pub open spec fn targets_differ(ops: Seq<FsOpView>, category: NameCategory, areas: Areas) -> bool {
    forall|i: int, j: int, name: Seq<char>|
        0 <= i < j < ops.len() ==> !(#[trigger] targets(ops[i], category, areas, name)
            && #[trigger] targets(ops[j], category, areas, name))
}

/// Whether the places are apart enough for the targets of `category` to be
/// told from the rest: nothing is built in a place that leads to the targets
/// of symlinks, and the two kinds of targets lie in two places.
pub open spec fn apart(at: PathView, areas: Areas, category: NameCategory) -> bool {
    match category {
        NameCategory::Entry => true,
        NameCategory::SymlinkDest => !at.is_prefix_of(areas.symlinks),
        NameCategory::BrokenSymlinkDest => areas.symlinks != areas.broken_symlinks,
    }
}

/// Two targets of one stream have two names.
pub proof fn lemma_dest_names_differ(category: NameCategory, first: nat, second: nat)
    requires
        first != second,
    ensures
        dest_name(category, first) != dest_name(category, second),
{
    let prefix = match category {
        NameCategory::Entry => Seq::<char>::empty(),
        NameCategory::SymlinkDest => "symlink-dest-"@,
        NameCategory::BrokenSymlinkDest => "broken-symlink-dest-"@,
    };
    if dest_name(category, first) == dest_name(category, second) {
        assert(dest_name(category, first).skip(prefix.len() as int) =~= decimal(first));
        assert(dest_name(category, second).skip(prefix.len() as int) =~= decimal(second));
        lemma_decimal_injective(first, second);
    }
}

/// Two places with something joined are the same only where the places are
/// and what was joined is.
pub proof fn lemma_joined_paths_differ(
    place: PathView,
    name: Seq<char>,
    other_place: PathView,
    other_name: Seq<char>,
)
    requires
        place.push(name) == other_place.push(other_name),
    ensures
        place == other_place,
        name == other_name,
{
    assert(place =~= place.push(name).drop_last());
    assert(other_place =~= other_place.push(other_name).drop_last());
    assert(name == place.push(name).last());
    assert(other_name == other_place.push(other_name).last());
}

/// Targets that are numbered within a range are numbered within a wider one.
pub proof fn lemma_targets_numbered_wider(
    ops: Seq<FsOpView>,
    category: NameCategory,
    areas: Areas,
    low: nat,
    high: nat,
    lower: nat,
    higher: nat,
)
    requires
        targets_numbered(ops, category, areas, low, high),
        lower <= low,
        high <= higher,
    ensures
        targets_numbered(ops, category, areas, lower, higher),
{
    assert forall|i: int, name: Seq<char>|
        0 <= i < ops.len() && #[trigger] targets(ops[i], category, areas, name) implies exists|
        ordinal: nat,
    |
        lower <= ordinal < higher && name == #[trigger] dest_name(category, ordinal) by {
        let ordinal = choose|ordinal: nat|
            low <= ordinal < high && name == #[trigger] dest_name(category, ordinal);
        assert(lower <= ordinal < higher && name == dest_name(category, ordinal));
    }
}

/// Operations whose targets are numbered below a bound, followed by
/// operations whose targets are numbered from that bound on, bring in no
/// target twice where neither of the two does.
pub proof fn lemma_targets_of_both(
    first: Seq<FsOpView>,
    second: Seq<FsOpView>,
    category: NameCategory,
    areas: Areas,
    low: nat,
    middle: nat,
    high: nat,
)
    requires
        low <= middle <= high,
        targets_numbered(first, category, areas, low, middle),
        targets_numbered(second, category, areas, middle, high),
        targets_differ(first, category, areas),
        targets_differ(second, category, areas),
    ensures
        targets_numbered(first + second, category, areas, low, high),
        targets_differ(first + second, category, areas),
{
    let ops = first + second;
    lemma_targets_numbered_wider(first, category, areas, low, middle, low, high);
    lemma_targets_numbered_wider(second, category, areas, middle, high, low, high);
    assert forall|i: int, name: Seq<char>|
        0 <= i < ops.len() && #[trigger] targets(ops[i], category, areas, name) implies exists|
        ordinal: nat,
    |
        low <= ordinal < high && name == #[trigger] dest_name(category, ordinal) by {
        if i < first.len() {
            assert(targets(first[i], category, areas, name));
        } else {
            assert(targets(second[i - first.len()], category, areas, name));
        }
    }
    assert forall|i: int, j: int, name: Seq<char>| 0 <= i < j < ops.len() implies !(
    #[trigger] targets(ops[i], category, areas, name) && #[trigger] targets(
        ops[j],
        category,
        areas,
        name,
    )) by {
        if targets(ops[i], category, areas, name) && targets(ops[j], category, areas, name) {
            if j < first.len() {
                assert(targets(first[i], category, areas, name));
                assert(targets(first[j], category, areas, name));
            } else if first.len() <= i {
                assert(targets(second[i - first.len()], category, areas, name));
                assert(targets(second[j - first.len()], category, areas, name));
            } else {
                assert(targets(first[i], category, areas, name));
                assert(targets(second[j - first.len()], category, areas, name));
                let early = choose|ordinal: nat|
                    low <= ordinal < middle && name == #[trigger] dest_name(category, ordinal);
                let late = choose|ordinal: nat|
                    middle <= ordinal < high && name == #[trigger] dest_name(category, ordinal);
                lemma_dest_names_differ(category, early, late);
            }
        }
    }
}

/// The targets that building an entry brings in are numbered from the next
/// ordinal of their stream on, below the one that is next afterwards, and no
/// two of them go by one name.
pub proof fn lemma_entry_targets(
    entry: EntryView,
    at: PathView,
    areas: Areas,
    names: Counters,
    draws: Seq<DrawView>,
    category: NameCategory,
)
    requires
        apart(at, areas, category),
    ensures
        targets_numbered(
            entry.steps(at, areas, names, draws).ops,
            category,
            areas,
            names.peek(category),
            entry.steps(at, areas, names, draws).names.peek(category),
        ),
        targets_differ(entry.steps(at, areas, names, draws).ops, category, areas),
    decreases entry, 0nat,
{
    let steps = entry.steps(at, areas, names, draws);
    match entry {
        EntryView::Dir(dir) => {
            lemma_dir_targets(dir, at, areas, names, draws, category);
        },
        EntryView::File(_) => {},
        EntryView::BrokenSymlink(link) => {
            let ordinal = names.broken_symlink_dest;
            assert forall|i: int, name: Seq<char>|
                0 <= i < steps.ops.len() && #[trigger] targets(
                    steps.ops[i],
                    category,
                    areas,
                    name,
                ) implies exists|ordinal: nat|
                names.peek(category) <= ordinal < steps.names.peek(category) && name
                    == #[trigger] dest_name(category, ordinal) by {
                lemma_joined_paths_differ(
                    areas.broken_symlinks,
                    name,
                    areas.broken_symlinks,
                    broken_symlink_dest_name(ordinal),
                );
                assert(name == dest_name(category, ordinal));
            }
        },
    }
}

/// The targets that building a directory brings in are numbered from the
/// next ordinal of their stream on, below the one that is next afterwards,
/// and no two of them go by one name.
pub proof fn lemma_dir_targets(
    dir: DirView,
    at: PathView,
    areas: Areas,
    names: Counters,
    draws: Seq<DrawView>,
    category: NameCategory,
)
    requires
        apart(at, areas, category),
    ensures
        targets_numbered(
            dir.steps(at, areas, names, draws).ops,
            category,
            areas,
            names.peek(category),
            dir.steps(at, areas, names, draws).names.peek(category),
        ),
        targets_differ(dir.steps(at, areas, names, draws).ops, category, areas),
    decreases dir, 1nat,
{
    if let EntriesView::Valid(entries) = dir.entries {
        let steps = dir.steps(at, areas, names, draws);
        let word = next_draw(draws).word;
        let ordinal = names.symlink_dest;
        let own = dir.resolved_name(ordinal, word);
        let location = dir.location(at, areas, ordinal, word);
        let inner_names = match dir.kind {
            DirKind::Normal => names,
            DirKind::Symlink => names.advance(NameCategory::SymlinkDest, 1),
        };
        let inner = children_steps(entries, 0, location, areas, inner_names, draws_after(draws, 1));
        let low = names.peek(category);
        let middle = inner_names.peek(category);
        let high = inner.names.peek(category);

        // The directory itself: a target only where it is symlinked.
        let created = seq![FsOpView::CreateDir { path: location }];
        assert forall|i: int, name: Seq<char>|
            0 <= i < created.len() && #[trigger] targets(
                created[i],
                category,
                areas,
                name,
            ) implies exists|ordinal: nat|
            low <= ordinal < middle && name == #[trigger] dest_name(category, ordinal) by {
            match dir.kind {
                DirKind::Normal => {
                    lemma_joined_paths_differ(at, own, areas.symlinks, name);
                },
                DirKind::Symlink => {
                    lemma_joined_paths_differ(areas.symlinks, own, areas.symlinks, name);
                    assert(name == dest_name(category, ordinal));
                },
            }
        }

        // Its children, built in a place that is apart as well.
        assert(apart(location, areas, category)) by {
            if category == NameCategory::SymlinkDest && location.is_prefix_of(areas.symlinks) {
                match dir.kind {
                    DirKind::Normal => {
                        assert(at =~= location.subrange(0, at.len() as int));
                        assert(at =~= areas.symlinks.subrange(0, at.len() as int));
                    },
                    DirKind::Symlink => {},
                }
            }
        }
        lemma_children_targets(
            entries,
            0,
            location,
            areas,
            inner_names,
            draws_after(draws, 1),
            category,
        );
        lemma_children_draw_within_demand(
            entries,
            0,
            location,
            areas,
            inner_names,
            draws_after(draws, 1),
        );
        lemma_targets_of_both(created, inner.ops, category, areas, low, middle, high);

        // The symlink to a symlinked directory points at no target of a
        // broken symlink.
        if inner.failure is None && dir.kind == DirKind::Symlink {
            let link = seq![
                FsOpView::Symlink { original: location, link: at.push(dir.link_name(word)) },
            ];
            assert forall|i: int, name: Seq<char>|
                0 <= i < link.len() && #[trigger] targets(
                    link[i],
                    category,
                    areas,
                    name,
                ) implies exists|ordinal: nat|
                high <= ordinal < high && name == #[trigger] dest_name(category, ordinal) by {
                lemma_joined_paths_differ(areas.symlinks, own, areas.broken_symlinks, name);
            }
            lemma_targets_of_both(created + inner.ops, link, category, areas, low, high, high);
            assert(steps.ops =~= created + inner.ops + link);
        }
    }
}

/// The targets that building children brings in are numbered from the next
/// ordinal of their stream on, below the one that is next afterwards, and no
/// two of them go by one name.
pub proof fn lemma_children_targets(
    entries: Seq<EntryView>,
    from: int,
    at: PathView,
    areas: Areas,
    names: Counters,
    draws: Seq<DrawView>,
    category: NameCategory,
)
    requires
        apart(at, areas, category),
    ensures
        targets_numbered(
            children_steps(entries, from, at, areas, names, draws).ops,
            category,
            areas,
            names.peek(category),
            children_steps(entries, from, at, areas, names, draws).names.peek(category),
        ),
        targets_differ(children_steps(entries, from, at, areas, names, draws).ops, category, areas),
    decreases entries, entries.len() - from,
{
    if 0 <= from < entries.len() {
        lemma_entry_targets(entries[from], at, areas, names, draws, category);
        let first = entries[from].steps(at, areas, names, draws);
        if first.failure is None {
            let left = draws_after(draws, entries[from].nodes());
            let rest = children_steps(entries, from + 1, at, areas, first.names, left);
            lemma_children_targets(entries, from + 1, at, areas, first.names, left, category);
            lemma_entry_draws_within_demand(entries[from], at, areas, names, draws);
            lemma_children_draw_within_demand(
                entries,
                from + 1,
                at,
                areas,
                first.names,
                left,
            );
            lemma_targets_of_both(
                first.ops,
                rest.ops,
                category,
                areas,
                names.peek(category),
                first.names.peek(category),
                rest.names.peek(category),
            );
        }
    }
}

/// Two entries that are built one after the other with one allocator, the
/// second going on where the first left the ordinals, bring in no target of
/// the same name: neither within one of the two builds nor across them.
pub proof fn lemma_targets_differ_across_builds(
    first: EntryView,
    first_at: PathView,
    first_draws: Seq<DrawView>,
    second: EntryView,
    second_at: PathView,
    second_draws: Seq<DrawView>,
    areas: Areas,
    names: Counters,
    category: NameCategory,
)
    requires
        apart(first_at, areas, category),
        apart(second_at, areas, category),
    ensures
        ({
            let earlier = first.steps(first_at, areas, names, first_draws);
            let later = second.steps(second_at, areas, earlier.names, second_draws);
            targets_differ(earlier.ops + later.ops, category, areas)
        }),
{
    let earlier = first.steps(first_at, areas, names, first_draws);
    let later = second.steps(second_at, areas, earlier.names, second_draws);
    lemma_entry_targets(first, first_at, areas, names, first_draws, category);
    lemma_entry_targets(second, second_at, areas, earlier.names, second_draws, category);
    lemma_entry_draws_within_demand(first, first_at, areas, names, first_draws);
    lemma_entry_draws_within_demand(second, second_at, areas, earlier.names, second_draws);
    lemma_targets_of_both(
        earlier.ops,
        later.ops,
        category,
        areas,
        names.peek(category),
        earlier.names.peek(category),
        later.names.peek(category),
    );
}

} // verus!
