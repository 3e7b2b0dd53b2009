//! Descriptions of filesystem entries: directories, files and broken symlinks.

pub mod broken_symlink;
pub mod dir;
pub mod file;

use std::cmp::Ordering;
use vstd::prelude::*;
use vstd::std_specs::cmp::{PartialEqSpecImpl, PartialOrdSpecImpl};

pub use self::broken_symlink::BrokenSymlink;
pub use self::dir::Dir;
pub use self::file::File;
use crate::model::{CommonView, EntryView, Permissions};
use crate::names::{NameAllocator, NameCategory};
use crate::order::{lemma_before_total, text_before, NameView};
use crate::plan::{
    draws_after, draws_of, ops_of, BuildError, Draw, DrawView, Draws, FsOp, TreePath,
};
use crate::steps::{lemma_entry_fails_at_first_duplicate, Areas};

verus! {

/// The identity of an entry: the name it was given, or an ordinal where it
/// was given none.
///
/// An entry that stands alone has its ordinal from the allocator it was made
/// with, and so differs from every entry made with that allocator before.
/// The directory that takes it in numbers it anew, from the directory's own
/// stream, so that none of its children has the same ordinal whatever
/// allocators they were made with.
#[derive(Debug)]
pub enum EntryName {
    Explicit(String),
    Generated(u64),
}

impl View for EntryName {
    type V = NameView;

    open spec fn view(&self) -> NameView {
        match self {
            EntryName::Explicit(text) => NameView::Explicit(text@),
            EntryName::Generated(ordinal) => NameView::Generated(*ordinal as nat),
        }
    }
}

impl EntryName {
    /// The name of an entry that was given none: the next ordinal of the
    /// entries of `names`, which no name made with `names` before has.
    pub fn default(names: &mut NameAllocator) -> (name: Self)
        requires
            old(names)@.peek(NameCategory::Entry) < u64::MAX,
        ensures
            name@ == NameView::Generated(old(names)@.entry),
            final(names)@ == old(names)@.advance(NameCategory::Entry, 1),
    {
        EntryName::Generated(names.next(NameCategory::Entry))
    }

    /// A name for a copy of the entry: the same explicit name, but a new
    /// ordinal, the next one of the entries of `names`. The copy of a
    /// generated name so differs from every name made with `names` before,
    /// and from the name it was made from where that is one of them.
    pub fn clone(&self, names: &mut NameAllocator) -> (copy: Self)
        requires
            self is Generated ==> old(names)@.peek(NameCategory::Entry) < u64::MAX,
        ensures
            copy@ == self@.renumbered(old(names)@.entry),
            final(names)@ == if self is Generated {
                old(names)@.advance(NameCategory::Entry, 1)
            } else {
                old(names)@
            },
            self@ matches NameView::Generated(ordinal) && ordinal < old(names)@.entry ==> copy@
                != self@,
    {
        match self {
            EntryName::Explicit(text) => EntryName::Explicit(text.clone()),
            EntryName::Generated(_) => EntryName::default(names),
        }
    }

    /// The same name once more, for an entry that stays in its directory.
    pub(crate) fn replica(&self) -> (copy: Self)
        ensures
            copy@ == self@,
    {
        match self {
            EntryName::Explicit(text) => EntryName::Explicit(text.clone()),
            EntryName::Generated(ordinal) => EntryName::Generated(*ordinal),
        }
    }

    /// The explicit name, or else what `f` makes up.
    pub fn unwrap_or_else<F: FnOnce() -> String>(&self, f: F) -> (text: String)
        requires
            self is Generated ==> f.requires(()),
        ensures
            match self {
                EntryName::Explicit(given) => text@ == given@,
                EntryName::Generated(_) => f.ensures((), text),
            },
    {
        match self {
            EntryName::Explicit(given) => given.clone(),
            EntryName::Generated(_) => f(),
        }
    }

    /// Whether `self` stands before `other` in a directory.
    pub fn precedes(&self, other: &EntryName) -> (before: bool)
        ensures
            before == self@.before(other@),
    {
        match self {
            EntryName::Explicit(a) => match other {
                EntryName::Explicit(b) => text_before(a.as_str(), b.as_str()),
                EntryName::Generated(_) => true,
            },
            EntryName::Generated(m) => match other {
                EntryName::Explicit(_) => false,
                EntryName::Generated(n) => *m < *n,
            },
        }
    }

    /// Whether the two are the same name.
    pub fn same_as(&self, other: &EntryName) -> (same: bool)
        ensures
            same == (self@ == other@),
    {
        match self {
            EntryName::Explicit(a) => match other {
                EntryName::Explicit(b) => *a == *b,
                EntryName::Generated(_) => false,
            },
            EntryName::Generated(m) => match other {
                EntryName::Explicit(_) => false,
                EntryName::Generated(n) => *m == *n,
            },
        }
    }
}

impl PartialEq for EntryName {
    fn eq(&self, other: &Self) -> (same: bool) {
        self.same_as(other)
    }
}

impl PartialEqSpecImpl for EntryName {
    open spec fn obeys_eq_spec() -> bool {
        true
    }

    open spec fn eq_spec(&self, other: &Self) -> bool {
        self@ == other@
    }
}

impl Eq for EntryName {

}

impl PartialOrd for EntryName {
    fn partial_cmp(&self, other: &Self) -> (order: Option<Ordering>) {
        if self.precedes(other) {
            Some(Ordering::Less)
        } else if other.precedes(self) {
            Some(Ordering::Greater)
        } else {
            proof {
                lemma_before_total(self@, other@);
            }
            Some(Ordering::Equal)
        }
    }
}

impl PartialOrdSpecImpl for EntryName {
    open spec fn obeys_partial_cmp_spec() -> bool {
        true
    }

    open spec fn partial_cmp_spec(&self, other: &Self) -> Option<Ordering> {
        if self@.before(other@) {
            Some(Ordering::Less)
        } else if other@.before(self@) {
            Some(Ordering::Greater)
        } else {
            Some(Ordering::Equal)
        }
    }
}

/// What every kind of entry has: a name and, optionally, permissions.
#[derive(Debug)]
pub struct CommonProp {
    name: EntryName,
    permissions: Option<Permissions>,
}

impl View for CommonProp {
    type V = CommonView;

    closed spec fn view(&self) -> CommonView {
        CommonView { name: self.name@, permissions: self.permissions }
    }
}

impl CommonProp {
    /// What an entry has that was given neither a name nor permissions: the
    /// next ordinal of the entries of `names`.
    pub fn default(names: &mut NameAllocator) -> (common: Self)
        requires
            old(names)@.peek(NameCategory::Entry) < u64::MAX,
        ensures
            common@ == CommonView::fresh(old(names)@.entry),
            final(names)@ == old(names)@.advance(NameCategory::Entry, 1),
    {
        CommonProp { name: EntryName::default(names), permissions: None }
    }

    /// The same for a copy of the entry, but for the ordinal of an entry
    /// without a name: that is the next one of the entries of `names`.
    pub fn clone(&self, names: &mut NameAllocator) -> (copy: Self)
        requires
            self@.name is Generated ==> old(names)@.peek(NameCategory::Entry) < u64::MAX,
        ensures
            copy@ == (CommonView { name: self@.name.renumbered(old(names)@.entry), ..self@ }),
            final(names)@ == if self@.name is Generated {
                old(names)@.advance(NameCategory::Entry, 1)
            } else {
                old(names)@
            },
    {
        CommonProp { name: self.name.clone(names), permissions: self.permissions }
    }

    /// The same once more, for an entry that stays in its directory.
    pub(crate) fn replica(&self) -> (copy: Self)
        ensures
            copy@ == self@,
    {
        CommonProp { name: self.name.replica(), permissions: self.permissions }
    }

    /// What an entry of the explicit name `name` has, without permissions.
    pub(crate) fn named(name: &str) -> (common: Self)
        ensures
            common@ == (CommonView { name: NameView::Explicit(name@), permissions: None }),
    {
        CommonProp { name: EntryName::Explicit(name.to_owned()), permissions: None }
    }

    /// The name of the entry.
    pub fn name(&self) -> (name: &EntryName)
        ensures
            name@ == self@.name,
    {
        &self.name
    }

    /// Gives the entry the explicit name `name`.
    pub fn set_name(&mut self, name: &str)
        ensures
            final(self)@ == (CommonView { name: NameView::Explicit(name@), ..old(self)@ }),
    {
        self.name = EntryName::Explicit(name.to_owned());
    }

    /// Numbers the entry `ordinal`, in place of any name it had.
    pub fn set_ordinal(&mut self, ordinal: u64)
        ensures
            final(self)@ == (CommonView {
                name: NameView::Generated(ordinal as nat),
                ..old(self)@
            }),
    {
        self.name = EntryName::Generated(ordinal);
    }

    /// Tags the entry with `permissions`.
    pub fn set_permissions(&mut self, permissions: Permissions)
        ensures
            final(self)@ == (CommonView { permissions: Some(permissions), ..old(self)@ }),
    {
        self.permissions = Some(permissions);
    }
}

/// One entry of a tree: a directory, a file or a broken symlink.
#[derive(Debug)]
pub enum Entry {
    Dir(Dir),
    File(File),
    BrokenSymlink(BrokenSymlink),
}

impl View for Entry {
    type V = EntryView;

    open spec fn view(&self) -> EntryView
        decreases self,
    {
        match self {
            Entry::Dir(dir) => EntryView::Dir(dir@),
            Entry::File(file) => EntryView::File(file@),
            Entry::BrokenSymlink(link) => EntryView::BrokenSymlink(link@),
        }
    }
}

impl PartialEq for Entry {
    fn eq(&self, other: &Self) -> (same: bool) {
        self.get_common_prop().name().same_as(other.get_common_prop().name())
    }
}

impl PartialEqSpecImpl for Entry {
    open spec fn obeys_eq_spec() -> bool {
        true
    }

    /// Two entries are the same to a directory where their names are.
    open spec fn eq_spec(&self, other: &Self) -> bool {
        self@.name() == other@.name()
    }
}

impl Eq for Entry {

}

impl PartialOrd for Entry {
    fn partial_cmp(&self, other: &Self) -> (order: Option<Ordering>) {
        self.get_common_prop().name().partial_cmp(other.get_common_prop().name())
    }
}

impl PartialOrdSpecImpl for Entry {
    open spec fn obeys_partial_cmp_spec() -> bool {
        true
    }

    /// Entries are ordered as their names are.
    open spec fn partial_cmp_spec(&self, other: &Self) -> Option<Ordering> {
        if self@.name().before(other@.name()) {
            Some(Ordering::Less)
        } else if other@.name().before(self@.name()) {
            Some(Ordering::Greater)
        } else {
            Some(Ordering::Equal)
        }
    }
}

impl Entry {
    /// A copy of the entry: the same description, but for the ordinal of an
    /// entry without a name, which is the next one of the entries of
    /// `names`. What a directory holds keeps the ordinals that the directory
    /// gave it.
    pub fn clone(&self, names: &mut NameAllocator) -> (copy: Self)
        requires
            self@.name() is Generated ==> old(names)@.peek(NameCategory::Entry) < u64::MAX,
        ensures
            copy@ == self@.adopted(old(names)@.entry),
            final(names)@ == if self@.name() is Generated {
                old(names)@.advance(NameCategory::Entry, 1)
            } else {
                old(names)@
            },
    {
        match self {
            Entry::Dir(inner) => Entry::Dir(inner.clone(names)),
            Entry::File(inner) => Entry::File(inner.clone(names)),
            Entry::BrokenSymlink(inner) => Entry::BrokenSymlink(inner.clone(names)),
        }
    }

    /// The same description once more, for an entry that stays in its directory.
    pub(crate) fn replica(&self) -> (copy: Self)
        ensures
            copy@ == self@,
        decreases self,
    {
        match self {
            Entry::Dir(inner) => Entry::Dir(inner.replica()),
            Entry::File(inner) => Entry::File(inner.replica()),
            Entry::BrokenSymlink(inner) => Entry::BrokenSymlink(inner.replica()),
        }
    }

    /// What the entry has in common with every other kind of entry.
    pub fn get_common_prop(&self) -> (common: &CommonProp)
        ensures
            common@ == self@.common(),
    {
        match self {
            Entry::Dir(inner) => inner.common_prop(),
            Entry::File(inner) => inner.common_prop(),
            Entry::BrokenSymlink(inner) => inner.common_prop(),
        }
    }

    /// The entry as a directory takes it in: one without a name is numbered
    /// `ordinal`, a named one stays as it is.
    pub fn adopted(self, ordinal: u64) -> (entry: Entry)
        ensures
            entry@ == self@.adopted(ordinal as nat),
    {
        if let EntryName::Explicit(_) = self.get_common_prop().name() {
            return self;
        }
        match self {
            Entry::Dir(inner) => Entry::Dir(inner.numbered(ordinal)),
            Entry::File(inner) => Entry::File(inner.numbered(ordinal)),
            Entry::BrokenSymlink(inner) => Entry::BrokenSymlink(inner.numbered(ordinal)),
        }
    }

    /// Draws what building the entry and all below it needs, one draw per
    /// entry: each entry before its children, the children in their order.
    pub fn draw_into(&self, drawn: &mut Vec<Draw>)
        ensures
            final(drawn)@.len() == old(drawn)@.len() + self@.nodes(),
            draws_of(final(drawn)@).take(old(drawn)@.len() as int) == draws_of(old(drawn)@),
            self@.draws_suit(draws_of(final(drawn)@).skip(old(drawn)@.len() as int)),
        decreases self,
    {
        match self {
            Entry::Dir(entry) => entry.draw_into(drawn),
            Entry::File(entry) => drawn.push(entry.draw()),
            Entry::BrokenSymlink(entry) => drawn.push(entry.draw()),
        }
    }

    /// Plans the creation of the entry in `at`, with what was drawn for it
    /// and for all below it.
    ///
    /// The operations are appended to `plan`. The directories that symlinked
    /// directories point at go to `symlinks`, the places that broken symlinks
    /// point at lie in `broken_symlinks`; `names` numbers both. A directory
    /// that was given a name twice ends the planning with that name; what was
    /// planned before stays in `plan`.
    ///
    /// The ordinals of `names` have to last; [`Entry::fits`] tells whether
    /// they do.
    pub fn try_build_with(
        &self,
        at: &TreePath,
        symlinks: &TreePath,
        broken_symlinks: &TreePath,
        names: &mut NameAllocator,
        draws: &mut Draws,
        plan: &mut Vec<FsOp>,
    ) -> (result: Result<(), BuildError>)
        requires
            old(names)@.lasts_for(self@, old(plan)@.len()),
        ensures
            self@.steps(
                at@,
                Areas { symlinks: symlinks@, broken_symlinks: broken_symlinks@ },
                old(names)@,
                old(draws)@,
            ).taken(old(plan)@, final(plan)@, final(names)@, result),
            result is Ok ==> final(draws)@ == draws_after(old(draws)@, self@.nodes()),
        decreases self,
    {
        match self {
            Entry::Dir(entry) => entry.try_build_with(
                at,
                symlinks,
                broken_symlinks,
                names,
                draws,
                plan,
            ),
            Entry::File(entry) => {
                let draw = draws.take();
                plan.push(entry.build_with(at, &draw));
                assert(ops_of(plan@) =~= ops_of(old(plan)@) + seq![entry@.op(at@, draw@)]);
                Ok(())
            },
            Entry::BrokenSymlink(entry) => {
                let draw = draws.take();
                let unique = names.peek(NameCategory::BrokenSymlinkDest);
                plan.push(entry.build_with(at, broken_symlinks, unique, &draw));
                assert(ops_of(plan@) =~= ops_of(old(plan)@) + seq![
                    entry@.op(at@, broken_symlinks@, unique as nat, draw@),
                ]);
                // The plan holds the operation by now, and is no longer than
                // a `usize` tells: room for the ordinal to move on.
                assert(plan.len() <= usize::MAX);
                names.next(NameCategory::BrokenSymlinkDest);
                Ok(())
            },
        }
    }

    /// Plans the creation of the entry in `at`. Names are made up for the
    /// entries that have none, and seeds are drawn for the random files that
    /// have none; with them the planning goes as [`Entry::try_build_with`] says.
    pub fn try_build_at(
        self,
        at: &TreePath,
        symlinks: &TreePath,
        broken_symlinks: &TreePath,
        names: &mut NameAllocator,
        plan: &mut Vec<FsOp>,
    ) -> (result: Result<(), BuildError>)
        requires
            old(names)@.lasts_for(self@, old(plan)@.len()),
        ensures
            match result {
                Ok(_) => self@.first_duplicate() is None,
                Err(error) => self@.first_duplicate() == Some(error.name()),
            },
            exists|draws: Seq<DrawView>|
                self@.draws_suit(draws) && (#[trigger] self@.steps(
                    at@,
                    Areas { symlinks: symlinks@, broken_symlinks: broken_symlinks@ },
                    old(names)@,
                    draws,
                )).taken(old(plan)@, final(plan)@, final(names)@, result),
    {
        let mut drawn: Vec<Draw> = Vec::new();
        self.draw_into(&mut drawn);
        assert(draws_of(drawn@).skip(0) =~= draws_of(drawn@));
        let mut draws = Draws::new(drawn);
        proof {
            lemma_entry_fails_at_first_duplicate(
                self@,
                at@,
                Areas { symlinks: symlinks@, broken_symlinks: broken_symlinks@ },
                names@,
                draws@,
            );
        }
        self.try_build_with(at, symlinks, broken_symlinks, names, &mut draws, plan)
    }

    /// Whether `names` has the ordinals left that building the entry can use up.
    pub fn fits(&self, names: &NameAllocator) -> (ok: bool)
        ensures
            ok == names@.has_room_for(self@),
    {
        let symlink_dests = u64::MAX - names.peek(NameCategory::SymlinkDest);
        let broken_symlink_dests = u64::MAX - names.peek(NameCategory::BrokenSymlinkDest);
        self.demand_within(NameCategory::SymlinkDest, symlink_dests).is_some()
            && self.demand_within(NameCategory::BrokenSymlinkDest, broken_symlink_dests).is_some()
    }

    /// What is left of `budget` ordinals of `category` after building the
    /// entry used up all it can; nothing where they do not suffice.
    pub fn demand_within(&self, category: NameCategory, budget: u64) -> (left: Option<u64>)
        ensures
            left == if self@.demand(category) <= budget {
                Some((budget - self@.demand(category)) as u64)
            } else {
                None
            },
        decreases self,
    {
        match self {
            Entry::Dir(entry) => entry.demand_within(category, budget),
            Entry::File(_) => Some(budget),
            Entry::BrokenSymlink(_) => match category {
                NameCategory::BrokenSymlinkDest => budget.checked_sub(1),
                _ => Some(budget),
            },
        }
    }
}

} // verus!
