//! Directories: real ones and symlinked ones, and the children they hold.

use vstd::prelude::*;
use vstd::string::StringExecFns;

use crate::entry::{BrokenSymlink, CommonProp, Entry, EntryName, File};
use crate::model::{
    has_name, lemma_next_ordinal_goes_last, lemma_split_is_rank, lemma_with_entry_wf, splits_at,
    strictly_ordered, BrokenSymlinkView, CommonView, DirKind, DirView, EntriesView, EntryView,
    Permissions,
};
use crate::names::{numbered_name, Counters, NameAllocator, NameCategory};
use crate::order::{lemma_before_transitive, NameView};
use crate::plan::{
    draws_after, draws_of, lemma_draws_after_twice, ops_of, BuildError, Draw, DrawView,
    Draws, FsOp, FsOpView, TreePath,
};
use crate::steps::{
    children_demand, children_draws_suit, children_nodes, children_steps,
    lemma_dir_fails_at_first_duplicate, lemma_draws_suit_all, lemma_draws_suit_one_more,
    lemma_entry_draws_within_demand, lemma_entry_plans_every_target, nodes_before, Areas,
};
use crate::utils::gen_petname;

verus! {

/// The description of a directory: its kind, and the children it holds in the
/// order of their names.
#[derive(Debug)]
pub struct Dir {
    kind: DirKind,
    common_prop: CommonProp,
    prop: DirProp,
}

#[derive(Debug)]
struct DirProp {
    entries: Entries,
    uniqifier: NameAllocator,
}

#[derive(Debug)]
enum Entries {
    Valid(Vec<Entry>),
    HasDuplicate(String),
}

impl View for Entries {
    type V = EntriesView;

    closed spec fn view(&self) -> EntriesView
        decreases self,
    {
        match self {
            Entries::Valid(listing) => EntriesView::Valid(
                Seq::new(
                    listing.len() as nat,
                    |i: int|
                        if 0 <= i < listing.len() {
                            listing[i]@
                        } else {
                            EntryView::BrokenSymlink(
                                BrokenSymlinkView { common: CommonView::fresh(0) },
                            )
                        },
                ),
            ),
            Entries::HasDuplicate(name) => EntriesView::HasDuplicate(name@),
        }
    }
}

impl View for Dir {
    type V = DirView;

    closed spec fn view(&self) -> DirView
        decreases self,
    {
        DirView {
            kind: self.kind,
            common: self.common_prop@,
            entries: self.prop.entries@,
            next_ordinal: self.prop.uniqifier@.entry,
        }
    }
}

/// The children that `listing` holds, each by its mathematical content.
spec fn listed(listing: Vec<Entry>) -> Seq<EntryView> {
    Entries::Valid(listing)@->Valid_0
}

/// Finds where the names that stand before the name of `entry` end.
fn position(listing: &Vec<Entry>, entry: &Entry) -> (at: usize)
    requires
        strictly_ordered(listed(*listing)),
    ensures
        splits_at(listed(*listing), entry@.name(), at as int),
{
    let mut at: usize = 0;
    while at < listing.len() && listing[at] < *entry
        invariant
            0 <= at <= listing.len(),
            forall|j: int|
                0 <= j < at ==> (#[trigger] listed(*listing)[j]).name().before(entry@.name()),
        decreases listing.len() - at,
    {
        at += 1;
    }
    proof {
        let entries = listed(*listing);
        let name = entry@.name();
        assert forall|j: int| at <= j < entries.len() implies !(
        #[trigger] entries[j]).name().before(name) by {
            if at < j && entries[j].name().before(name) {
                lemma_before_transitive(entries[at as int].name(), entries[j].name(), name);
            }
        }
    }
    at
}

impl Entries {
    /// Takes in `entry`, unless a name was given twice before.
    fn insert(&mut self, entry: Entry)
        requires
            old(self)@ matches EntriesView::Valid(entries) ==> strictly_ordered(entries) && (
            entry@.name() is Generated ==> !has_name(entries, entry@.name())),
        ensures
            final(self)@ == old(self)@.taking(entry@),
    {
        match self {
            Entries::HasDuplicate(_) => {},
            Entries::Valid(listing) => {
                let ghost entries = listed(*listing);
                let at = position(listing, &entry);
                let taken = at < listing.len() && listing[at] == entry;
                proof {
                    lemma_split_is_rank(entries, entry@.name(), at as int);
                }
                if taken {
                    if let EntryName::Explicit(text) = entry.get_common_prop().name() {
                        *self = Entries::HasDuplicate(text.clone());
                    }
                } else {
                    listing.insert(at, entry);
                    assert(listed(*listing) =~= entries.insert(at as int, entry@));
                }
            },
        }
    }
}

impl Dir {
    /// The directory is well formed, and of its allocator only the stream of
    /// the entries was ever drawn from.
    #[verifier::type_invariant]
    spec fn well_formed(self) -> bool {
        &&& self@.wf()
        &&& self.prop.uniqifier@ == Counters::fresh().advance(
            NameCategory::Entry,
            self@.next_ordinal,
        )
    }

    fn new(kind: DirKind, names: &mut NameAllocator) -> (dir: Self)
        requires
            old(names)@.peek(NameCategory::Entry) < u64::MAX,
        ensures
            dir@ == DirView::empty(kind, old(names)@.entry),
            final(names)@ == old(names)@.advance(NameCategory::Entry, 1),
            dir@.wf(),
    {
        let dir = Dir {
            kind,
            common_prop: CommonProp::default(names),
            prop: DirProp { entries: Entries::Valid(Vec::new()), uniqifier: NameAllocator::new() },
        };
        assert(dir@.entries->Valid_0 =~= Seq::<EntryView>::empty());
        dir
    }

    /// An empty directory of the given kind and the explicit name `name`.
    pub(crate) fn named(kind: DirKind, name: &str) -> (dir: Self)
        ensures
            dir@ == (DirView {
                common: CommonView { name: NameView::Explicit(name@), permissions: None },
                ..DirView::empty(kind, 0)
            }),
            dir@.wf(),
    {
        let dir = Dir {
            kind,
            common_prop: CommonProp::named(name),
            prop: DirProp { entries: Entries::Valid(Vec::new()), uniqifier: NameAllocator::new() },
        };
        assert(dir@.entries->Valid_0 =~= Seq::<EntryView>::empty());
        dir
    }

    /// An empty real directory, numbered by `names`.
    pub fn default(names: &mut NameAllocator) -> (dir: Self)
        requires
            old(names)@.peek(NameCategory::Entry) < u64::MAX,
        ensures
            dir@ == DirView::empty(DirKind::Normal, old(names)@.entry),
            final(names)@ == old(names)@.advance(NameCategory::Entry, 1),
            dir@.wf(),
    {
        Dir::new(DirKind::Normal, names)
    }

    /// A copy of the directory: the same description, but for the ordinal of
    /// a directory without a name, which is the next one of the entries of
    /// `names`. The children keep the ordinals that the directory gave them.
    pub fn clone(&self, names: &mut NameAllocator) -> (copy: Self)
        requires
            self@.common.name is Generated ==> old(names)@.peek(NameCategory::Entry) < u64::MAX,
        ensures
            EntryView::Dir(copy@) == EntryView::Dir(self@).adopted(old(names)@.entry),
            final(names)@ == if self@.common.name is Generated {
                old(names)@.advance(NameCategory::Entry, 1)
            } else {
                old(names)@
            },
            copy@.wf(),
    {
        proof {
            use_type_invariant(self);
        }
        let copy = self.replica();
        match self.common_prop.name() {
            EntryName::Explicit(_) => copy,
            EntryName::Generated(_) => copy.numbered(names.next(NameCategory::Entry)),
        }
    }

    /// The same description once more, for a directory that stays in its
    /// directory.
    pub(crate) fn replica(&self) -> (copy: Self)
        ensures
            copy@ == self@,
        decreases self,
    {
        proof {
            use_type_invariant(self);
        }
        let entries = match &self.prop.entries {
            Entries::HasDuplicate(name) => Entries::HasDuplicate(name.clone()),
            Entries::Valid(listing) => {
                let mut copies: Vec<Entry> = Vec::new();
                let mut i: usize = 0;
                while i < listing.len()
                    invariant
                        0 <= i <= listing.len(),
                        self.prop.entries == Entries::Valid(*listing),
                        self.prop.entries->Valid_0 == *listing,
                        copies@.len() == i,
                        forall|k: int| 0 <= k < i ==> copies@[k]@ == listing@[k]@,
                    decreases listing.len() - i,
                {
                    copies.push(listing[i].replica());
                    i += 1;
                }
                assert(listed(copies) =~= listed(*listing));
                Entries::Valid(copies)
            },
        };
        Dir {
            kind: self.kind,
            common_prop: self.common_prop.replica(),
            prop: DirProp { entries, uniqifier: self.prop.uniqifier },
        }
    }

    /// What the directory has in common with every other kind of entry.
    pub fn common_prop(&self) -> (common: &CommonProp)
        ensures
            common@ == self@.common,
    {
        &self.common_prop
    }

    /// The directory numbered `ordinal`, in place of any name it had.
    pub(crate) fn numbered(self, ordinal: u64) -> (dir: Self)
        ensures
            dir@ == (DirView {
                common: CommonView { name: NameView::Generated(ordinal as nat), ..self@.common },
                ..self@
            }),
    {
        proof {
            use_type_invariant(&self);
        }
        let Dir { kind, common_prop, prop } = self;
        let mut common_prop = common_prop;
        common_prop.set_ordinal(ordinal);
        Dir { kind, common_prop, prop }
    }

    /// An empty directory that is created where it is named; numbered by `names`.
    pub fn normal(names: &mut NameAllocator) -> (dir: Self)
        requires
            old(names)@.peek(NameCategory::Entry) < u64::MAX,
        ensures
            dir@ == DirView::empty(DirKind::Normal, old(names)@.entry),
            final(names)@ == old(names)@.advance(NameCategory::Entry, 1),
            dir@.wf(),
    {
        Dir::new(DirKind::Normal, names)
    }

    /// An empty directory that is reached through a symlink: the symlink
    /// stands where the directory is named, the directory itself among the
    /// targets of symlinks. It is numbered by `names`.
    pub fn symlink(names: &mut NameAllocator) -> (dir: Self)
        requires
            old(names)@.peek(NameCategory::Entry) < u64::MAX,
        ensures
            dir@ == DirView::empty(DirKind::Symlink, old(names)@.entry),
            final(names)@ == old(names)@.advance(NameCategory::Entry, 1),
            dir@.wf(),
    {
        Dir::new(DirKind::Symlink, names)
    }

    /// Gives the directory the name `name`; the last name given counts.
    pub fn name(self, name: &str) -> (dir: Self)
        ensures
            dir@ == (DirView {
                common: CommonView { name: NameView::Explicit(name@), ..self@.common },
                ..self@
            }),
            dir@.wf(),
    {
        proof {
            use_type_invariant(&self);
        }
        let Dir { kind, common_prop, prop } = self;
        let mut common_prop = common_prop;
        common_prop.set_name(name);
        Dir { kind, common_prop, prop }
    }

    /// Tags the directory with `permissions`; the last value given counts.
    pub fn permissions(self, permissions: Permissions) -> (dir: Self)
        ensures
            dir@ == (DirView {
                common: CommonView { permissions: Some(permissions), ..self@.common },
                ..self@
            }),
            dir@.wf(),
    {
        proof {
            use_type_invariant(&self);
        }
        let Dir { kind, common_prop, prop } = self;
        let mut common_prop = common_prop;
        common_prop.set_permissions(permissions);
        Dir { kind, common_prop, prop }
    }

    /// Takes in the directory `dir` as a child.
    pub fn dir(self, dir: Dir) -> (parent: Self)
        ensures
            parent@ == self@.with_entry(EntryView::Dir(dir@)),
            parent@.wf(),
    {
        self.entry(Entry::Dir(dir))
    }

    /// Takes in the file `file` as a child.
    pub fn file(self, file: File) -> (parent: Self)
        ensures
            parent@ == self@.with_entry(EntryView::File(file@)),
            parent@.wf(),
    {
        self.entry(Entry::File(file))
    }

    /// Takes in the broken symlink `broken_symlink` as a child.
    pub fn broken_symlink(self, broken_symlink: BrokenSymlink) -> (parent: Self)
        ensures
            parent@ == self@.with_entry(EntryView::BrokenSymlink(broken_symlink@)),
            parent@.wf(),
    {
        self.entry(Entry::BrokenSymlink(broken_symlink))
    }

    /// Takes in `entry` as a child; a name that is given twice is kept in
    /// place of the children, and comes out when the directory is built.
    pub fn entry(self, entry: Entry) -> (parent: Self)
        ensures
            parent@ == self@.with_entry(entry@),
            parent@.wf(),
    {
        proof {
            use_type_invariant(&self);
        }
        if let Entry::Dir(child) = &entry {
            proof {
                use_type_invariant(child);
            }
        }
        proof {
            lemma_with_entry_wf(self@, entry@);
        }
        let Dir { kind, common_prop, prop } = self;
        let DirProp { entries, uniqifier } = prop;
        let mut entries = entries;
        let mut uniqifier = uniqifier;
        let ordinal = uniqifier.peek(NameCategory::Entry);
        let adopted = entry.adopted(ordinal);
        let generated = match adopted.get_common_prop().name() {
            EntryName::Explicit(_) => false,
            EntryName::Generated(_) => true,
        };
        proof {
            if let EntriesView::Valid(held) = entries@ {
                if generated {
                    lemma_next_ordinal_goes_last(held, ordinal as nat);
                }
            }
        }
        let grows = match &entries {
            Entries::Valid(_) => generated,
            Entries::HasDuplicate(_) => false,
        };
        entries.insert(adopted);
        if grows {
            // The entry is held by now, and children are no more than a
            // `usize` tells: room for the ordinal to move on.
            if let Entries::Valid(listing) = &entries {
                assert(ordinal < listing.len());
            }
            uniqifier.next(NameCategory::Entry);
        }
        Dir { kind, common_prop, prop: DirProp { entries, uniqifier } }
    }

    /// Draws what building the directory and all below it needs, one draw
    /// per entry: the directory first, then its children in their order.
    pub fn draw_into(&self, drawn: &mut Vec<Draw>)
        ensures
            final(drawn)@.len() == old(drawn)@.len() + self@.nodes(),
            draws_of(final(drawn)@).take(old(drawn)@.len() as int) == draws_of(old(drawn)@),
            EntryView::Dir(self@).draws_suit(
                draws_of(final(drawn)@).skip(old(drawn)@.len() as int),
            ),
        decreases self,
    {
        let ghost start = old(drawn)@.len() as int;
        let word = match self.common_prop.name() {
            EntryName::Explicit(_) => String::new(),
            EntryName::Generated(_) => gen_petname(),
        };
        drawn.push(Draw { word, seed: 0 });
        let ghost own = drawn@[start]@;
        if let Entries::Valid(listing) = &self.prop.entries {
            let ghost entries = self@.entries->Valid_0;
            let mut i: usize = 0;
            while i < listing.len()
                invariant
                    0 <= i <= listing.len(),
                    self.prop.entries == Entries::Valid(*listing),
                    entries == listed(*listing),
                    start == old(drawn)@.len(),
                    drawn@.len() == start + 1 + nodes_before(entries, i as int),
                    draws_of(drawn@).take(start) == draws_of(old(drawn)@),
                    draws_of(drawn@)[start] == own,
                    children_draws_suit(entries, i as int, start, draws_of(drawn@)),
                decreases listing.len() - i,
            {
                let ghost before = draws_of(drawn@);
                listing[i].draw_into(drawn);
                proof {
                    lemma_draws_suit_one_more(entries, i as int, start, before, draws_of(drawn@));
                }
                i += 1;
            }
            proof {
                lemma_draws_suit_all(entries, start, draws_of(drawn@));
            }
        }
    }

    /// Plans the creation of the directory in `at`, with what was drawn for
    /// it and for all below it; see [`Entry::try_build_with`].
    pub fn try_build_with(
        &self,
        at: &TreePath,
        symlinks: &TreePath,
        broken_symlinks: &TreePath,
        names: &mut NameAllocator,
        draws: &mut Draws,
        plan: &mut Vec<FsOp>,
    ) -> (result: Result<(), BuildError>)
        requires
            old(names)@.lasts_for(EntryView::Dir(self@), old(plan)@.len()),
        ensures
            self@.steps(
                at@,
                Areas { symlinks: symlinks@, broken_symlinks: broken_symlinks@ },
                old(names)@,
                old(draws)@,
            ).taken(old(plan)@, final(plan)@, final(names)@, result),
            result is Ok ==> final(draws)@ == draws_after(old(draws)@, self@.nodes()),
        decreases self,
    {
        let ghost areas = Areas { symlinks: symlinks@, broken_symlinks: broken_symlinks@ };
        let ghost total = self@.steps(at@, areas, old(names)@, old(draws)@);
        match &self.prop.entries {
            Entries::HasDuplicate(name) => {
                Err(BuildError::DuplicateName(name.clone()))
            },
            Entries::Valid(listing) => {
                let ghost entries = self@.entries->Valid_0;
                let draw = draws.take();
                let word = draw.word.as_str();
                // The name of a real directory is its own; the target of a
                // symlinked one is numbered, and never seen in the tree.
                let current_val = names.peek(NameCategory::SymlinkDest);
                let dir_name = match self.kind {
                    DirKind::Normal => {
                        let make = || -> (made: String)
                            ensures
                                made@ == "dir-"@ + word@,
                            { String::from_str("dir-").concat(word) };
                        self.common_prop.name().unwrap_or_else(make)
                    },
                    DirKind::Symlink => numbered_name("symlink-dest-", current_val),
                };
                let dir_loc = match self.kind {
                    DirKind::Normal => at.join(dir_name.as_str()),
                    DirKind::Symlink => symlinks.join(dir_name.as_str()),
                };
                let ghost location = dir_loc@;
                let ghost created = ops_of(old(plan)@) + seq![
                    FsOpView::CreateDir { path: location },
                ];
                plan.push(FsOp::CreateDir { path: dir_loc.clone() });
                if let DirKind::Symlink = self.kind {
                    // The plan holds the operation by now, and is no longer
                    // than a `usize` tells: room for the ordinal to move on.
                    assert(plan.len() <= usize::MAX);
                    names.next(NameCategory::SymlinkDest);
                }
                let ghost inner = children_steps(entries, 0, location, areas, names@, draws@);

                let mut i: usize = 0;
                while i < listing.len()
                    invariant
                        0 <= i <= listing.len(),
                        self.prop.entries == Entries::Valid(*listing),
                        entries == listed(*listing),
                        dir_loc@ == location,
                        areas == (Areas { symlinks: symlinks@, broken_symlinks: broken_symlinks@ }),
                        (names@.symlink_dest + children_demand(
                            entries,
                            i as int,
                            NameCategory::SymlinkDest,
                        ) <= u64::MAX && names@.broken_symlink_dest + children_demand(
                            entries,
                            i as int,
                            NameCategory::BrokenSymlinkDest,
                        ) <= u64::MAX) || names@.within_plan(plan@.len()),
                        ops_of(plan@) + children_steps(
                            entries,
                            i as int,
                            location,
                            areas,
                            names@,
                            draws@,
                        ).ops == created + inner.ops,
                        children_steps(entries, i as int, location, areas, names@, draws@).names
                            == inner.names,
                        children_steps(entries, i as int, location, areas, names@, draws@).failure
                            == inner.failure,
                        draws_after(draws@, children_nodes(entries, i as int)) == draws_after(
                            old(draws)@,
                            self@.nodes(),
                        ),
                        total == self@.steps(at@, areas, old(names)@, old(draws)@),
                        total.failure == inner.failure,
                        total.names == inner.names,
                        inner.failure is Some ==> ops_of(old(plan)@) + total.ops == created
                            + inner.ops,
                    decreases listing.len() - i,
                {
                    let ghost draws_before = draws@;
                    let ghost plan_before = plan@;
                    let ghost first = entries[i as int].steps(location, areas, names@, draws@);
                    proof {
                        lemma_entry_draws_within_demand(
                            entries[i as int],
                            location,
                            areas,
                            names@,
                            draws@,
                        );
                        lemma_entry_plans_every_target(
                            entries[i as int],
                            location,
                            areas,
                            names@,
                            draws@,
                        );
                    }
                    let built = listing[i].try_build_with(
                        &dir_loc,
                        symlinks,
                        broken_symlinks,
                        names,
                        draws,
                        plan,
                    );
                    if let Err(error) = built {
                        return Err(error);
                    }
                    proof {
                        let rest = children_steps(
                            entries,
                            i as int + 1,
                            location,
                            areas,
                            names@,
                            draws@,
                        );
                        assert(ops_of(plan@) + rest.ops =~= ops_of(plan_before) + (first.ops
                            + rest.ops));
                        lemma_draws_after_twice(
                            draws_before,
                            entries[i as int].nodes(),
                            children_nodes(entries, i as int + 1),
                        );
                    }
                    i += 1;
                }

                // Now the symlink itself, where the directory is named.
                if let DirKind::Symlink = self.kind {
                    let make = || -> (made: String)
                        ensures
                            made@ == "symlink-"@ + word@,
                        { String::from_str("symlink-").concat(word) };
                    let link_name = self.common_prop.name().unwrap_or_else(make);
                    let link = at.join(link_name.as_str());
                    plan.push(FsOp::Symlink { original: dir_loc, link });
                    assert(ops_of(plan@) =~= (created + inner.ops).push(
                        FsOpView::Symlink { original: location, link: link@ },
                    ));
                }
                assert(ops_of(plan@) =~= ops_of(old(plan)@) + total.ops);
                proof {
                    lemma_draws_after_twice(old(draws)@, 1, children_nodes(entries, 0));
                }
                Ok(())
            },
        }
    }

    /// Plans the creation of the directory in `at`. Names are made up for the
    /// entries that have none, and seeds are drawn for the random files that
    /// have none; with them the planning goes as [`Dir::try_build_with`] says.
    pub fn try_build_at(
        self,
        at: &TreePath,
        symlinks: &TreePath,
        broken_symlinks: &TreePath,
        names: &mut NameAllocator,
        plan: &mut Vec<FsOp>,
    ) -> (result: Result<(), BuildError>)
        requires
            old(names)@.lasts_for(EntryView::Dir(self@), old(plan)@.len()),
        ensures
            match result {
                Ok(_) => self@.first_duplicate() is None,
                Err(error) => self@.first_duplicate() == Some(error.name()),
            },
            exists|draws: Seq<DrawView>|
                EntryView::Dir(self@).draws_suit(draws) && (#[trigger] self@.steps(
                    at@,
                    Areas { symlinks: symlinks@, broken_symlinks: broken_symlinks@ },
                    old(names)@,
                    draws,
                )).taken(old(plan)@, final(plan)@, final(names)@, result),
    {
        let mut drawn: Vec<Draw> = Vec::new();
        self.draw_into(&mut drawn);
        assert(draws_of(drawn@).skip(0) =~= draws_of(drawn@));
        let mut draws = Draws::new(drawn);
        proof {
            lemma_dir_fails_at_first_duplicate(
                self@,
                at@,
                Areas { symlinks: symlinks@, broken_symlinks: broken_symlinks@ },
                names@,
                draws@,
            );
        }
        self.try_build_with(at, symlinks, broken_symlinks, names, &mut draws, plan)
    }

    /// What is left of `budget` ordinals of `category` after building the
    /// directory used up all it can; nothing where they do not suffice.
    pub fn demand_within(&self, category: NameCategory, budget: u64) -> (left: Option<u64>)
        ensures
            left == if self@.demand(category) <= budget {
                Some((budget - self@.demand(category)) as u64)
            } else {
                None
            },
        decreases self,
    {
        match &self.prop.entries {
            Entries::HasDuplicate(_) => Some(budget),
            Entries::Valid(listing) => {
                let ghost entries = self@.entries->Valid_0;
                let own: u64 = match (self.kind, category) {
                    (DirKind::Symlink, NameCategory::SymlinkDest) => 1,
                    _ => 0,
                };
                if budget < own {
                    return None;
                }
                let mut left: u64 = budget - own;
                let mut i: usize = 0;
                while i < listing.len()
                    invariant
                        0 <= i <= listing.len(),
                        self.prop.entries == Entries::Valid(*listing),
                        entries == listed(*listing),
                        left + self@.demand(category) == budget + children_demand(
                            entries,
                            i as int,
                            category,
                        ),
                    decreases listing.len() - i,
                {
                    match listing[i].demand_within(category, left) {
                        Some(rest) => {
                            left = rest;
                        },
                        None => {
                            return None;
                        },
                    }
                    i += 1;
                }
                Some(left)
            },
        }
    }

    /// Whether `names` has the ordinals left that building the directory can use up.
    pub fn fits(&self, names: &NameAllocator) -> (ok: bool)
        ensures
            ok == names@.has_room_for(EntryView::Dir(self@)),
    {
        let symlink_dests = u64::MAX - names.peek(NameCategory::SymlinkDest);
        let broken_symlink_dests = u64::MAX - names.peek(NameCategory::BrokenSymlinkDest);
        self.demand_within(NameCategory::SymlinkDest, symlink_dests).is_some()
            && self.demand_within(NameCategory::BrokenSymlinkDest, broken_symlink_dests).is_some()
    }
}

} // verus!
