//! Paths below the root of a build, the filesystem operations that a build
//! consists of, and the values that were drawn for it.

use vstd::prelude::*;
use vstd::string::StringExecFns;

verus! {

/// A path as the sequence of the names that lead to it from the root of a build.
pub type PathView = Seq<Seq<char>>;

/// A path below the root of a build, one segment per name joined to it.
#[derive(Debug)]
pub struct TreePath {
    pub segments: Vec<String>,
}

impl View for TreePath {
    type V = PathView;

    open spec fn view(&self) -> PathView {
        self.segments@.map_values(|segment: String| segment@)
    }
}

impl Clone for TreePath {
    fn clone(&self) -> (path: Self)
        ensures
            path@ == self@,
    {
        let mut segments: Vec<String> = Vec::new();
        let mut i: usize = 0;
        while i < self.segments.len()
            invariant
                0 <= i <= self.segments.len(),
                segments@.len() == i,
                forall|k: int| 0 <= k < i ==> segments@[k]@ == self.segments@[k]@,
            decreases self.segments.len() - i,
        {
            segments.push(self.segments[i].clone());
            i += 1;
        }
        let path = TreePath { segments };
        path
    }
}

impl TreePath {
    /// The root of a build.
    pub fn root() -> (path: TreePath)
        ensures
            path@ == PathView::empty(),
    {
        let path = TreePath { segments: Vec::new() };
        path
    }

    /// The path one step below `self`, under `name`.
    pub fn join(&self, name: &str) -> (path: TreePath)
        ensures
            path@ == self@.push(name@),
    {
        let mut path = self.clone();
        path.segments.push(name.to_owned());
        path
    }
}

/// One filesystem operation of a build.
#[derive(Clone, Debug)]
pub enum FsOp {
    /// Create the directory `path`; its parent exists.
    CreateDir { path: TreePath },
    /// Create the file `path` and write `contents` to it.
    WriteFile { path: TreePath, contents: Vec<u8> },
    /// Create at `link` a symlink that points at `original`.
    Symlink { original: TreePath, link: TreePath },
}

/// The mathematical content of an [`FsOp`].
pub enum FsOpView {
    CreateDir { path: PathView },
    WriteFile { path: PathView, contents: Seq<u8> },
    Symlink { original: PathView, link: PathView },
}

impl View for FsOp {
    type V = FsOpView;

    open spec fn view(&self) -> FsOpView {
        match self {
            FsOp::CreateDir { path } => FsOpView::CreateDir { path: path@ },
            FsOp::WriteFile { path, contents } => FsOpView::WriteFile {
                path: path@,
                contents: contents@,
            },
            FsOp::Symlink { original, link } => FsOpView::Symlink {
                original: original@,
                link: link@,
            },
        }
    }
}

/// The operations of `plan`, each by its mathematical content.
pub open spec fn ops_of(plan: Seq<FsOp>) -> Seq<FsOpView> {
    plan.map_values(|op: FsOp| op@)
}

/// What `text` looks like in the `Debug` form of strings: between double
/// quotes, with what cannot stand there escaped.
pub uninterp spec fn debug_form(text: Seq<char>) -> Seq<char>;

/// Formats `text` with `{:?}`, that is with the `Debug` implementation of
/// `str`; the result depends on the text alone.
#[verifier::external_body]
fn debug_text(text: &str) -> (quoted: String)
    ensures
        quoted@ == debug_form(text@),
{
    format!("{:?}", text)
}

/// Why a tree cannot be built.
#[derive(Clone, Debug)]
pub enum BuildError {
    /// A directory was given two children of this name.
    DuplicateName(String),
}

impl BuildError {
    /// The name that was given twice.
    pub open spec fn name(self) -> Seq<char> {
        match self {
            BuildError::DuplicateName(name) => name@,
        }
    }

    /// What the error says.
    pub open spec fn message(self) -> Seq<char> {
        "Directory had duplicate entry named: "@ + debug_form(self.name())
    }

    /// The name that was given twice.
    pub fn duplicate_name(&self) -> (name: &String)
        ensures
            name@ == self.name(),
    {
        match self {
            BuildError::DuplicateName(name) => name,
        }
    }

    /// What the error says: that a directory had a duplicate entry, and its name.
    pub fn to_message(&self) -> (message: String)
        ensures
            message@ == self.message(),
    {
        let quoted = debug_text(self.duplicate_name().as_str());
        String::from_str("Directory had duplicate entry named: ").concat(quoted.as_str())
    }
}

/// What was drawn for one entry of a tree: a word for its name, should it
/// have none, and a seed for its bytes, should it be a random file without one.
#[derive(Clone, Debug)]
pub struct Draw {
    pub word: String,
    pub seed: u64,
}

/// The mathematical content of a [`Draw`].
pub struct DrawView {
    pub word: Seq<char>,
    pub seed: u64,
}

impl DrawView {
    /// What stands for a draw that was never made.
    pub open spec fn blank() -> DrawView {
        DrawView { word: Seq::empty(), seed: 0 }
    }
}

impl View for Draw {
    type V = DrawView;

    open spec fn view(&self) -> DrawView {
        DrawView { word: self.word@, seed: self.seed }
    }
}

impl Draw {
    /// A draw of the given word and seed.
    pub fn new(word: &str, seed: u64) -> (draw: Draw)
        ensures
            draw@ == (DrawView { word: word@, seed }),
    {
        Draw { word: word.to_owned(), seed }
    }

    /// What stands for a draw that was never made.
    pub fn blank() -> (draw: Draw)
        ensures
            draw@ == DrawView::blank(),
    {
        Draw { word: String::new(), seed: 0 }
    }
}

/// The draws `drawn`, each by its mathematical content.
pub open spec fn draws_of(drawn: Seq<Draw>) -> Seq<DrawView> {
    drawn.map_values(|draw: Draw| draw@)
}

/// The first of `draws`, or a blank where none is left.
pub open spec fn next_draw(draws: Seq<DrawView>) -> DrawView {
    if draws.len() > 0 {
        draws[0]
    } else {
        DrawView::blank()
    }
}

/// What is left of `draws` after `count` of them were used.
pub open spec fn draws_after(draws: Seq<DrawView>, count: nat) -> Seq<DrawView> {
    if count <= draws.len() {
        draws.skip(count as int)
    } else {
        Seq::empty()
    }
}

/// The draws for the entries of a tree, in the order in which a build visits
/// them: each entry before its children, the children in their order.
#[derive(Clone, Debug)]
pub struct Draws {
    items: Vec<Draw>,
    used: usize,
}

impl View for Draws {
    type V = Seq<DrawView>;

    /// The draws that are left.
    closed spec fn view(&self) -> Seq<DrawView> {
        draws_after(draws_of(self.items@), self.used as nat)
    }
}

impl Draws {
    /// The given draws, none of them used.
    pub fn new(items: Vec<Draw>) -> (draws: Draws)
        ensures
            draws@ == draws_of(items@),
    {
        let draws = Draws { items, used: 0 };
        draws
    }

    /// Uses up the next draw and returns it; a blank once none is left.
    pub fn take(&mut self) -> (draw: Draw)
        ensures
            draw@ == next_draw(old(self)@),
            final(self)@ == draws_after(old(self)@, 1),
    {
        if self.used < self.items.len() {
            let next = &self.items[self.used];
            let draw = Draw { word: next.word.clone(), seed: next.seed };
            self.used = self.used + 1;
            draw
        } else {
            Draw::blank()
        }
    }
}

/// Using up `first` draws and then `second` more leaves what using up
/// `first + second` leaves.
pub proof fn lemma_draws_after_twice(draws: Seq<DrawView>, first: nat, second: nat)
    ensures
        draws_after(draws_after(draws, first), second) == draws_after(draws, first + second),
{
}

} // verus!
