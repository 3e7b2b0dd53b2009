//! The top of a description, and the plan that building it gives.

use vstd::prelude::*;

use crate::entry::{BrokenSymlink, Dir, File};
use crate::model::{CommonView, DirKind, DirView, EntriesView, EntryView};
use crate::names::{Counters, NameAllocator, NameCategory};
use crate::order::NameView;
use crate::places::{
    all_created_below, below, created_path, lemma_children_create_below, lemma_children_targets,
    targets, targets_differ,
};
use crate::plan::{
    draws_after, draws_of, ops_of, BuildError, Draw, DrawView, Draws, FsOp, FsOpView, PathView,
    TreePath,
};
use crate::steps::{children_steps, lemma_dir_fails_at_first_duplicate, Areas, Steps};

verus! {

/// Where, below the root of a build, the described tree lies.
pub open spec fn base_path() -> PathView {
    seq!["base"@]
}

/// The two places beside the tree, below the root of a build.
pub open spec fn areas() -> Areas {
    Areas { symlinks: seq!["symlinks"@], broken_symlinks: seq!["broken-symlinks"@] }
}

/// The course of building the tree `inner` below a fresh root.
pub open spec fn build_steps(inner: DirView, draws: Seq<DrawView>) -> Steps {
    inner.steps(PathView::empty(), areas(), Counters::fresh(), draws)
}

/// The operations that lay out a fresh root: they create the two places
/// beside the tree, then the tree.
pub open spec fn layout_ops(tree: Seq<FsOpView>) -> Seq<FsOpView> {
    seq![
        FsOpView::CreateDir { path: areas().symlinks },
        FsOpView::CreateDir { path: areas().broken_symlinks },
    ] + tree
}

/// Whether `tree` is the top of a description: a real directory named `base`.
pub open spec fn is_base(tree: DirView) -> bool {
    tree.kind == DirKind::Normal && tree.common.name == NameView::Explicit("base"@)
}

/// Whether `ops` keep the targets apart: no two symlinked directories share
/// a target, no two broken symlinks point at one place, and nothing is
/// created where broken symlinks point.
pub open spec fn targets_kept_apart(ops: Seq<FsOpView>) -> bool {
    &&& targets_differ(ops, NameCategory::SymlinkDest, areas())
    &&& targets_differ(ops, NameCategory::BrokenSymlinkDest, areas())
    &&& forall|i: int|
        0 <= i < ops.len() ==> !below(created_path(#[trigger] ops[i]), areas().broken_symlinks)
}

/// The plan of every tree keeps the targets apart.
pub proof fn lemma_layout_keeps_targets_apart(inner: DirView, draws: Seq<DrawView>)
    requires
        is_base(inner),
    ensures
        targets_kept_apart(layout_ops(build_steps(inner, draws).ops)),
{
    reveal_strlit("base");
    reveal_strlit("symlinks");
    reveal_strlit("broken-symlinks");
    let root = PathView::empty();
    let base = root.push("base"@);
    let tree = build_steps(inner, draws).ops;
    assert(areas().symlinks[0] == "symlinks"@);
    assert(areas().broken_symlinks[0] == "broken-symlinks"@);
    assert("symlinks"@.len() != "broken-symlinks"@.len());
    assert("base"@.len() != "broken-symlinks"@.len());
    assert("base"@.len() != "symlinks"@.len());

    // What the tree creates lies below `base` or among the targets of symlinks.
    assert(tree.len() > 0 ==> tree[0] == FsOpView::CreateDir { path: base } && all_created_below(
        tree.skip(1),
        base,
        areas().symlinks,
    ) && targets_differ(tree.skip(1), NameCategory::SymlinkDest, areas()) && targets_differ(
        tree.skip(1),
        NameCategory::BrokenSymlinkDest,
        areas(),
    )) by {
        if let EntriesView::Valid(entries) = inner.entries {
            let inner_draws = draws_after(draws, 1);
            let fresh = Counters::fresh();
            let children = children_steps(entries, 0, base, areas(), fresh, inner_draws);
            lemma_children_create_below(entries, 0, base, areas(), fresh, inner_draws);
            assert(!base.is_prefix_of(areas().symlinks)) by {
                if base.is_prefix_of(areas().symlinks) {
                    assert(base[0] == areas().symlinks.subrange(0, 1)[0]);
                }
            }
            lemma_children_targets(
                entries,
                0,
                base,
                areas(),
                fresh,
                inner_draws,
                NameCategory::SymlinkDest,
            );
            lemma_children_targets(
                entries,
                0,
                base,
                areas(),
                fresh,
                inner_draws,
                NameCategory::BrokenSymlinkDest,
            );
            assert(tree.skip(1) =~= children.ops);
        }
    }
    let ops = layout_ops(tree);
    assert forall|i: int| 0 <= i < ops.len() implies !below(
        created_path(#[trigger] ops[i]),
        areas().broken_symlinks,
    ) by {
        let path = created_path(ops[i]);
        if below(path, areas().broken_symlinks) {
            assert(path[0] == path.subrange(0, 1)[0]);
            if i >= 3 {
                assert(ops[i] == tree.skip(1)[i - 3]);
                assert(path[0] == path.subrange(0, 1)[0]);
            }
        }
    }
    assert forall|category: NameCategory|
        category != NameCategory::Entry implies #[trigger] targets_differ(
        ops,
        category,
        areas(),
    ) by {
        assert forall|i: int, j: int, name: Seq<char>| 0 <= i < j < ops.len() implies !(
        #[trigger] targets(ops[i], category, areas(), name) && #[trigger] targets(
            ops[j],
            category,
            areas(),
            name,
        )) by {
            if i >= 3 {
                assert(ops[i] == tree.skip(1)[i - 3]);
                assert(ops[j] == tree.skip(1)[j - 3]);
            } else if targets(ops[i], category, areas(), name) {
                assert(areas().symlinks.push(name).len() == 2);
                assert(areas().symlinks.push(name)[0] == "symlinks"@);
            }
        }
    }
}

/// Whether `result` is what building the tree `inner` with `draws` gives: the
/// plan of a tree that lies at [`base_path`], or the name that a directory
/// was given twice.
pub open spec fn build_result(
    inner: DirView,
    draws: Seq<DrawView>,
    result: Result<RandDir, BuildError>,
) -> bool {
    let steps = build_steps(inner, draws);
    match result {
        Ok(rand_dir) => {
            &&& steps.failure is None
            &&& rand_dir@.base == base_path()
            &&& rand_dir@.ops == layout_ops(steps.ops)
        },
        Err(error) => steps.failure == Some(error.name()),
    }
}

/// Whether planning the tree `inner` with `draws` took `before` to `after` and
/// gave `result`: the operations that lay out the root are appended, up to
/// the failure where there is one, and `result` is [`base_path`] or the name
/// that a directory was given twice.
pub open spec fn build_taken(
    inner: DirView,
    draws: Seq<DrawView>,
    before: Seq<FsOp>,
    after: Seq<FsOp>,
    result: Result<TreePath, BuildError>,
) -> bool {
    let steps = build_steps(inner, draws);
    &&& ops_of(after) == ops_of(before) + layout_ops(steps.ops)
    &&& match result {
        Ok(base) => steps.failure is None && base@ == base_path(),
        Err(error) => steps.failure == Some(error.name()),
    }
}

/// A tree that was planned: where it lies below the root of the build, and
/// the operations that bring it into being there.
#[derive(Debug)]
pub struct RandDir {
    base: TreePath,
    ops: Vec<FsOp>,
}

/// The mathematical content of a [`RandDir`].
pub struct RandDirView {
    pub base: PathView,
    pub ops: Seq<FsOpView>,
}

impl View for RandDir {
    type V = RandDirView;

    closed spec fn view(&self) -> RandDirView {
        RandDirView { base: self.base@, ops: ops_of(self.ops@) }
    }
}

impl RandDir {
    /// A builder that holds no entries yet.
    pub fn builder() -> (builder: RandDirBuilder)
        ensures
            builder@ == RandDirBuilder::empty(),
    {
        RandDirBuilder::default()
    }

    /// Where the tree lies, below the root of the build.
    pub fn at(&self) -> (base: &TreePath)
        ensures
            base@ == self@.base,
    {
        &self.base
    }

    /// The operations that bring the tree into being, in their order.
    pub fn ops(&self) -> (ops: &Vec<FsOp>)
        ensures
            ops_of(ops@) == self@.ops,
    {
        &self.ops
    }
}

/// Gathers the entries of the top of a tree.
#[derive(Debug)]
pub struct RandDirBuilder {
    inner: Dir,
}

impl View for RandDirBuilder {
    type V = DirView;

    /// The directory that the tree is: a real one, named `base`.
    closed spec fn view(&self) -> DirView {
        self.inner@
    }
}

impl Clone for RandDirBuilder {
    fn clone(&self) -> (copy: Self)
        ensures
            copy@ == self@,
    {
        proof {
            use_type_invariant(self);
        }
        RandDirBuilder { inner: self.inner.replica() }
    }
}

impl Default for RandDirBuilder {
    fn default() -> (builder: Self)
        ensures
            builder@ == RandDirBuilder::empty(),
    {
        RandDirBuilder { inner: Dir::named(DirKind::Normal, "base") }
    }
}

impl RandDirBuilder {
    #[verifier::type_invariant]
    spec fn holds_base(self) -> bool {
        is_base(self@)
    }

    /// The tree of a builder that holds no entries.
    pub open spec fn empty() -> DirView {
        DirView {
            common: CommonView { name: NameView::Explicit("base"@), permissions: None },
            ..DirView::empty(DirKind::Normal, 0)
        }
    }

    /// A builder that holds no entries yet.
    pub fn new() -> (builder: Self)
        ensures
            builder@ == RandDirBuilder::empty(),
    {
        RandDirBuilder::default()
    }

    /// Takes in the directory `dir` at the top of the tree.
    pub fn dir(self, dir: Dir) -> (builder: Self)
        ensures
            builder@ == self@.with_entry(EntryView::Dir(dir@)),
    {
        proof {
            use_type_invariant(&self);
        }
        RandDirBuilder { inner: self.inner.dir(dir) }
    }

    /// Takes in the file `file` at the top of the tree.
    pub fn file(self, file: File) -> (builder: Self)
        ensures
            builder@ == self@.with_entry(EntryView::File(file@)),
    {
        proof {
            use_type_invariant(&self);
        }
        RandDirBuilder { inner: self.inner.file(file) }
    }

    /// Takes in the broken symlink `broken_symlink` at the top of the tree.
    pub fn broken_symlink(self, broken_symlink: BrokenSymlink) -> (builder: Self)
        ensures
            builder@ == self@.with_entry(EntryView::BrokenSymlink(broken_symlink@)),
    {
        proof {
            use_type_invariant(&self);
        }
        RandDirBuilder { inner: self.inner.broken_symlink(broken_symlink) }
    }

    /// Draws what building the tree needs, one draw per entry: each entry
    /// before its children, the children in their order.
    pub fn draw(&self) -> (drawn: Vec<Draw>)
        ensures
            EntryView::Dir(self@).draws_suit(draws_of(drawn@)),
    {
        let mut drawn: Vec<Draw> = Vec::new();
        self.inner.draw_into(&mut drawn);
        assert(draws_of(drawn@).skip(0) =~= draws_of(drawn@));
        drawn
    }

    /// Plans the tree below a fresh root, with what was drawn for its entries.
    ///
    /// The operations are appended to `plan`: they create the two places
    /// beside the tree, then the tree at [`base_path`], which is returned.
    /// Where a directory was given a name twice that name is returned; the
    /// operations that come before the directory are in `plan` all the same.
    pub fn try_build_with(self, drawn: Vec<Draw>, plan: &mut Vec<FsOp>) -> (result: Result<
        TreePath,
        BuildError,
    >)
        ensures
            build_taken(
                self@,
                draws_of(drawn@),
                old(plan)@,
                final(plan)@,
                result,
            ),
    {
        let ghost given = draws_of(drawn@);
        let mut draws = Draws::new(drawn);
        let root = TreePath::root();
        let symlinks = root.join("symlinks");
        let broken_symlinks = root.join("broken-symlinks");
        plan.push(FsOp::CreateDir { path: symlinks.clone() });
        plan.push(FsOp::CreateDir { path: broken_symlinks.clone() });

        let base = root.join("base");
        let mut names = NameAllocator::new();
        let built = self.inner.try_build_with(
            &root,
            &symlinks,
            &broken_symlinks,
            &mut names,
            &mut draws,
            plan,
        );
        assert(ops_of(plan@) =~= ops_of(old(plan)@) + layout_ops(build_steps(self@, given).ops));
        match built {
            Ok(_) => Ok(base),
            Err(error) => Err(error),
        }
    }

    /// Plans the tree below a fresh root. Names are made up for the entries
    /// that have none, and seeds are drawn for the random files that have
    /// none; with them the planning goes as [`RandDirBuilder::try_build_with`]
    /// says. Where a directory was given a name twice there is no plan.
    pub fn try_build(self) -> (result: Result<RandDir, BuildError>)
        ensures
            match result {
                Ok(_) => self@.first_duplicate() is None,
                Err(error) => self@.first_duplicate() == Some(error.name()),
            },
            exists|draws: Seq<DrawView>|
                EntryView::Dir(self@).draws_suit(draws) && #[trigger] build_result(
                    self@,
                    draws,
                    result,
                ),
            result matches Ok(rand_dir) ==> targets_kept_apart(rand_dir@.ops),
    {
        let drawn = self.draw();
        let ghost draws = draws_of(drawn@);
        proof {
            use_type_invariant(&self);
            lemma_layout_keeps_targets_apart(self@, draws);
            lemma_dir_fails_at_first_duplicate(
                self@,
                PathView::empty(),
                areas(),
                Counters::fresh(),
                draws,
            );
        }
        let mut ops: Vec<FsOp> = Vec::new();
        let result = match self.try_build_with(drawn, &mut ops) {
            Ok(base) => {
                Ok(RandDir { base, ops })
            },
            Err(error) => Err(error),
        };
        assert(build_result(self@, draws, result));
        result
    }
}

} // verus!
