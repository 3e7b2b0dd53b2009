//! A symlink whose target never exists.

use vstd::prelude::*;
use vstd::string::StringExecFns;

use crate::entry::{CommonProp, EntryName};
use crate::model::{BrokenSymlinkView, CommonView, EntryView, Permissions};
use crate::names::{numbered_name, NameAllocator, NameCategory};
use crate::order::NameView;
use crate::plan::{ops_of, BuildError, Draw, DrawView, FsOp, TreePath};
use crate::utils::gen_petname;

verus! {

/// The description of a symlink that points at nothing.
#[derive(Debug)]
pub struct BrokenSymlink {
    common_prop: CommonProp,
}

impl View for BrokenSymlink {
    type V = BrokenSymlinkView;

    closed spec fn view(&self) -> BrokenSymlinkView {
        BrokenSymlinkView { common: self.common_prop@ }
    }
}

impl BrokenSymlink {
    /// A broken symlink without name or permissions, numbered by `names`.
    pub fn new(names: &mut NameAllocator) -> (link: Self)
        requires
            old(names)@.peek(NameCategory::Entry) < u64::MAX,
        ensures
            link@ == (BrokenSymlinkView { common: CommonView::fresh(old(names)@.entry) }),
            final(names)@ == old(names)@.advance(NameCategory::Entry, 1),
    {
        BrokenSymlink { common_prop: CommonProp::default(names) }
    }

    /// A broken symlink without name or permissions, numbered by `names`.
    pub fn default(names: &mut NameAllocator) -> (link: Self)
        requires
            old(names)@.peek(NameCategory::Entry) < u64::MAX,
        ensures
            link@ == (BrokenSymlinkView { common: CommonView::fresh(old(names)@.entry) }),
            final(names)@ == old(names)@.advance(NameCategory::Entry, 1),
    {
        BrokenSymlink::new(names)
    }

    /// A copy of the symlink: the same description, but for the ordinal of a
    /// symlink without a name, which is the next one of the entries of `names`.
    pub fn clone(&self, names: &mut NameAllocator) -> (copy: Self)
        requires
            self@.common.name is Generated ==> old(names)@.peek(NameCategory::Entry) < u64::MAX,
        ensures
            EntryView::BrokenSymlink(copy@) == EntryView::BrokenSymlink(self@).adopted(
                old(names)@.entry,
            ),
            final(names)@ == if self@.common.name is Generated {
                old(names)@.advance(NameCategory::Entry, 1)
            } else {
                old(names)@
            },
    {
        BrokenSymlink { common_prop: self.common_prop.clone(names) }
    }

    /// The same description once more, for a symlink that stays in its directory.
    pub(crate) fn replica(&self) -> (copy: Self)
        ensures
            copy@ == self@,
    {
        BrokenSymlink { common_prop: self.common_prop.replica() }
    }

    /// What the symlink has in common with every other kind of entry.
    pub fn common_prop(&self) -> (common: &CommonProp)
        ensures
            common@ == self@.common,
    {
        &self.common_prop
    }

    /// The symlink numbered `ordinal`, in place of any name it had.
    pub(crate) fn numbered(self, ordinal: u64) -> (link: Self)
        ensures
            link@ == (BrokenSymlinkView {
                common: CommonView { name: NameView::Generated(ordinal as nat), ..self@.common },
            }),
    {
        let mut link = self;
        link.common_prop.set_ordinal(ordinal);
        link
    }

    /// Gives the symlink the name `name`; the last name given counts.
    pub fn name(self, name: &str) -> (link: Self)
        ensures
            link@ == (BrokenSymlinkView {
                common: CommonView { name: NameView::Explicit(name@), ..self@.common },
            }),
    {
        let mut link = self;
        link.common_prop.set_name(name);
        link
    }

    /// Tags the symlink with `permissions`; the last value given counts.
    pub fn permissions(self, permissions: Permissions) -> (link: Self)
        ensures
            link@ == (BrokenSymlinkView {
                common: CommonView { permissions: Some(permissions), ..self@.common },
            }),
    {
        let mut link = self;
        link.common_prop.set_permissions(permissions);
        link
    }

    /// The operation that creates the symlink in `at`, with what was drawn
    /// for it; it points at the place numbered `ordinal` in `broken_symlinks`.
    pub fn build_with(
        &self,
        at: &TreePath,
        broken_symlinks: &TreePath,
        ordinal: u64,
        draw: &Draw,
    ) -> (op: FsOp)
        ensures
            op@ == self@.op(at@, broken_symlinks@, ordinal as nat, draw@),
    {
        let word = draw.word.as_str();
        let make = || -> (made: String)
            ensures
                made@ == "broken-symlink-"@ + word@,
            { String::from_str("broken-symlink-").concat(word) };
        let name = self.common_prop.name().unwrap_or_else(make);
        let link = at.join(name.as_str());
        let dest = broken_symlinks.join(numbered_name("broken-symlink-dest-", ordinal).as_str());
        FsOp::Symlink { original: dest, link }
    }

    /// Draws what building the symlink needs: two words joined by a hyphen
    /// where it has no name; what is not needed is left blank.
    pub fn draw(&self) -> (draw: Draw)
        ensures
            EntryView::BrokenSymlink(self@).draw_suits(draw@),
    {
        let word = match self.common_prop.name() {
            EntryName::Explicit(_) => String::new(),
            EntryName::Generated(_) => gen_petname(),
        };
        Draw { word, seed: 0 }
    }

    /// Plans the creation of the symlink in `at`: a name is made up where
    /// the symlink has none, and the next ordinal of the targets of broken
    /// symlinks names the place in `broken_symlinks` that it points at.
    /// Nothing is ever created at that place.
    pub fn try_build_at(
        self,
        at: &TreePath,
        broken_symlinks: &TreePath,
        names: &mut NameAllocator,
        plan: &mut Vec<FsOp>,
    ) -> (result: Result<(), BuildError>)
        requires
            old(names)@.broken_symlink_dest < u64::MAX,
        ensures
            result is Ok,
            final(names)@ == old(names)@.advance(NameCategory::BrokenSymlinkDest, 1),
            exists|draw: DrawView|
                EntryView::BrokenSymlink(self@).draw_suits(draw) && ops_of(final(plan)@) == ops_of(
                    old(plan)@,
                ).push(
                    #[trigger] self@.op(
                        at@,
                        broken_symlinks@,
                        old(names)@.broken_symlink_dest,
                        draw,
                    ),
                ),
    {
        let draw = self.draw();
        let unique = names.next(NameCategory::BrokenSymlinkDest);
        let op = self.build_with(at, broken_symlinks, unique, &draw);
        plan.push(op);
        Ok(())
    }
}

} // verus!
