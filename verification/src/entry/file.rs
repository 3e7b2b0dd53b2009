//! Files and where their bytes come from.

use rand::rngs::StdRng;
use rand::{RngCore, SeedableRng};
use vstd::prelude::*;
use vstd::string::StringExecFns;

use crate::entry::{CommonProp, EntryName};
use crate::model::{CommonView, ContentView, EntryView, FileView, Permissions};
use crate::names::{NameAllocator, NameCategory};
use crate::order::NameView;
use crate::plan::{ops_of, BuildError, Draw, DrawView, FsOp, TreePath};
use crate::steps::random_bytes;
use crate::utils::gen_petname;

verus! {

/// The number of bytes of a file whose size was not set.
pub const DEFAULT_FILE_SIZE: usize = 4096;

/// The bytes with which the standard generator of `rand`, seeded with `seed`,
/// fills a buffer of `len` bytes.
pub uninterp spec fn seeded_bytes(seed: u64, len: nat) -> Seq<u8>;

/// Fills `buffer` from `rand`'s `StdRng`: `SeedableRng::seed_from_u64` makes
/// the generator from `seed`, and `RngCore::fill_bytes` overwrites every byte
/// of the buffer with what the generator gives. The generator is
/// deterministic, so the bytes depend on `seed` and on their number alone.
#[verifier::external_body]
fn fill_seeded(seed: u64, buffer: &mut Vec<u8>)
    ensures
        final(buffer)@ == seeded_bytes(seed, old(buffer)@.len()),
        final(buffer)@.len() == old(buffer)@.len(),
{
    StdRng::seed_from_u64(seed).fill_bytes(buffer);
}

/// Calls `rand::random`, which draws a `u64` from the generator of the
/// current thread. Nothing is known of the value.
#[verifier::external_body]
fn fresh_seed() -> u64 {
    rand::random()
}

/// The description of a file: where its bytes come from, and how many there are.
#[derive(Debug)]
pub struct File {
    kind: FileKind,
    common_prop: CommonProp,
    prop: FileProp,
}

#[derive(Debug)]
enum FileKind {
    Zeroed,
    Oned,
    Random(Option<u64>),
    Custom(Vec<u8>),
}

impl View for FileKind {
    type V = ContentView;

    closed spec fn view(&self) -> ContentView {
        match self {
            FileKind::Zeroed => ContentView::Zeroed,
            FileKind::Oned => ContentView::Oned,
            FileKind::Random(seed) => ContentView::Random(*seed),
            FileKind::Custom(bytes) => ContentView::Custom(bytes@),
        }
    }
}

#[derive(Clone, Copy, Debug)]
struct FileProp {
    size: Option<usize>,
}

impl View for File {
    type V = FileView;

    closed spec fn view(&self) -> FileView {
        FileView { kind: self.kind@, common: self.common_prop@, size: self.prop.size }
    }
}

impl FileView {
    /// A file of the given kind, without name, permissions or size, numbered
    /// `ordinal`.
    pub open spec fn fresh(kind: ContentView, ordinal: nat) -> FileView {
        FileView { kind, common: CommonView::fresh(ordinal), size: None }
    }
}

impl Clone for FileKind {
    fn clone(&self) -> (copy: Self)
        ensures
            copy@ == self@,
    {
        match self {
            FileKind::Zeroed => FileKind::Zeroed,
            FileKind::Oned => FileKind::Oned,
            FileKind::Random(seed) => FileKind::Random(*seed),
            FileKind::Custom(bytes) => FileKind::Custom(copy_of(bytes)),
        }
    }
}

impl File {
    fn new(kind: FileKind, names: &mut NameAllocator) -> (file: Self)
        requires
            old(names)@.peek(NameCategory::Entry) < u64::MAX,
        ensures
            file@ == FileView::fresh(kind@, old(names)@.entry),
            final(names)@ == old(names)@.advance(NameCategory::Entry, 1),
    {
        File { kind, common_prop: CommonProp::default(names), prop: FileProp { size: None } }
    }

    /// A file of pseudorandom bytes without a seed, numbered by `names`.
    pub fn default(names: &mut NameAllocator) -> (file: Self)
        requires
            old(names)@.peek(NameCategory::Entry) < u64::MAX,
        ensures
            file@ == FileView::fresh(ContentView::Random(None), old(names)@.entry),
            final(names)@ == old(names)@.advance(NameCategory::Entry, 1),
    {
        File::new(FileKind::Random(None), names)
    }

    /// A copy of the file: the same description, but for the ordinal of a
    /// file without a name, which is the next one of the entries of `names`.
    pub fn clone(&self, names: &mut NameAllocator) -> (copy: Self)
        requires
            self@.common.name is Generated ==> old(names)@.peek(NameCategory::Entry) < u64::MAX,
        ensures
            EntryView::File(copy@) == EntryView::File(self@).adopted(old(names)@.entry),
            final(names)@ == if self@.common.name is Generated {
                old(names)@.advance(NameCategory::Entry, 1)
            } else {
                old(names)@
            },
    {
        File {
            kind: self.kind.clone(),
            common_prop: self.common_prop.clone(names),
            prop: self.prop,
        }
    }

    /// The same description once more, for a file that stays in its directory.
    pub(crate) fn replica(&self) -> (copy: Self)
        ensures
            copy@ == self@,
    {
        File { kind: self.kind.clone(), common_prop: self.common_prop.replica(), prop: self.prop }
    }

    /// A file whose every byte is `0x00`, numbered by `names`.
    pub fn zeroed(names: &mut NameAllocator) -> (file: Self)
        requires
            old(names)@.peek(NameCategory::Entry) < u64::MAX,
        ensures
            file@ == FileView::fresh(ContentView::Zeroed, old(names)@.entry),
            final(names)@ == old(names)@.advance(NameCategory::Entry, 1),
    {
        File::new(FileKind::Zeroed, names)
    }

    /// A file whose every byte is `0xFF`, numbered by `names`.
    pub fn oned(names: &mut NameAllocator) -> (file: Self)
        requires
            old(names)@.peek(NameCategory::Entry) < u64::MAX,
        ensures
            file@ == FileView::fresh(ContentView::Oned, old(names)@.entry),
            final(names)@ == old(names)@.advance(NameCategory::Entry, 1),
    {
        File::new(FileKind::Oned, names)
    }

    /// A file of pseudorandom bytes, from a seed that is drawn when the file
    /// is built; numbered by `names`.
    pub fn random(names: &mut NameAllocator) -> (file: Self)
        requires
            old(names)@.peek(NameCategory::Entry) < u64::MAX,
        ensures
            file@ == FileView::fresh(ContentView::Random(None), old(names)@.entry),
            final(names)@ == old(names)@.advance(NameCategory::Entry, 1),
    {
        File::new(FileKind::Random(None), names)
    }

    /// A file of the pseudorandom bytes that `seed` gives, numbered by `names`.
    pub fn random_with_seed(seed: u64, names: &mut NameAllocator) -> (file: Self)
        requires
            old(names)@.peek(NameCategory::Entry) < u64::MAX,
        ensures
            file@ == FileView::fresh(ContentView::Random(Some(seed)), old(names)@.entry),
            final(names)@ == old(names)@.advance(NameCategory::Entry, 1),
    {
        File::new(FileKind::Random(Some(seed)), names)
    }

    /// A file of exactly the given bytes; its size is their number. It is
    /// numbered by `names`.
    pub fn custom(contents: Vec<u8>, names: &mut NameAllocator) -> (file: Self)
        requires
            old(names)@.peek(NameCategory::Entry) < u64::MAX,
        ensures
            file@ == (FileView {
                size: Some(contents@.len() as usize),
                ..FileView::fresh(ContentView::Custom(contents@), old(names)@.entry)
            }),
            final(names)@ == old(names)@.advance(NameCategory::Entry, 1),
    {
        let contents_len = contents.len();
        File {
            kind: FileKind::Custom(contents),
            common_prop: CommonProp::default(names),
            prop: FileProp { size: Some(contents_len) },
        }
    }

    /// What the file has in common with every other kind of entry.
    pub fn common_prop(&self) -> (common: &CommonProp)
        ensures
            common@ == self@.common,
    {
        &self.common_prop
    }

    /// The file numbered `ordinal`, in place of any name it had.
    pub(crate) fn numbered(self, ordinal: u64) -> (file: Self)
        ensures
            file@ == (FileView {
                common: CommonView { name: NameView::Generated(ordinal as nat), ..self@.common },
                ..self@
            }),
    {
        let mut file = self;
        file.common_prop.set_ordinal(ordinal);
        file
    }

    /// Gives the file the name `name`; the last name given counts.
    pub fn name(self, name: &str) -> (file: Self)
        ensures
            file@ == (FileView {
                common: CommonView { name: NameView::Explicit(name@), ..self@.common },
                ..self@
            }),
    {
        let mut file = self;
        file.common_prop.set_name(name);
        file
    }

    /// Tags the file with `permissions`; the last value given counts.
    pub fn permissions(self, permissions: Permissions) -> (file: Self)
        ensures
            file@ == (FileView {
                common: CommonView { permissions: Some(permissions), ..self@.common },
                ..self@
            }),
    {
        let mut file = self;
        file.common_prop.set_permissions(permissions);
        file
    }

    /// Sets the number of bytes; the last number given counts. A file of given
    /// bytes keeps their number as its size, whatever is asked for.
    pub fn size(self, file_size: usize) -> (file: Self)
        ensures
            file@ == if self@.kind is Custom {
                self@
            } else {
                FileView { size: Some(file_size), ..self@ }
            },
    {
        let mut file = self;
        match &file.kind {
            FileKind::Custom(_) => {},
            _ => {
                file.prop.size = Some(file_size);
            },
        }
        file
    }

    fn suffix(&self) -> (suffix: &'static str)
        ensures
            suffix@ == self@.kind.suffix(),
    {
        match &self.kind {
            FileKind::Zeroed => ".zeroed",
            FileKind::Oned => ".oned",
            FileKind::Random(_) => ".random",
            FileKind::Custom(_) => ".custom",
        }
    }

    /// The bytes of the file; `seed` is used where the file is random and
    /// has no seed of its own.
    pub fn contents(&self, seed: u64) -> (bytes: Vec<u8>)
        ensures
            bytes@ == self@.bytes(seed),
            !(self@.kind is Custom) ==> bytes@.len() == self@.resolved_size(),
    {
        let size = match self.prop.size {
            Some(size) => size,
            None => DEFAULT_FILE_SIZE,
        };
        match &self.kind {
            FileKind::Zeroed => repeat(0x00, size),
            FileKind::Oned => repeat(0xFF, size),
            FileKind::Random(maybe_seed) => {
                let seed = match maybe_seed {
                    Some(own) => *own,
                    None => seed,
                };
                let mut bytes = repeat(0x00, size);
                fill_seeded(seed, &mut bytes);
                assert(bytes@ =~= random_bytes(seed, size as nat));
                bytes
            },
            FileKind::Custom(custom_contents) => copy_of(custom_contents),
        }
    }

    /// The operation that creates the file in `at`, with what was drawn for it.
    pub fn build_with(&self, at: &TreePath, draw: &Draw) -> (op: FsOp)
        ensures
            op@ == self@.op(at@, draw@),
            !(self@.kind is Custom) ==> self@.bytes(draw@.seed).len() == self@.resolved_size(),
    {
        let word = draw.word.as_str();
        let suffix = self.suffix();
        let make = || -> (made: String)
            ensures
                made@ == "file-"@ + word@ + suffix@,
            { affixed("file-", word, suffix) };
        let file_name = self.common_prop.name().unwrap_or_else(make);
        let contents = self.contents(draw.seed);
        FsOp::WriteFile { path: at.join(file_name.as_str()), contents }
    }

    /// Plans the creation of the file in `at`: a name is made up where the
    /// file has none, a seed is drawn where it is random and has none.
    pub fn try_build_at(self, at: &TreePath, plan: &mut Vec<FsOp>) -> (result: Result<
        (),
        BuildError,
    >)
        ensures
            result is Ok,
            exists|draw: DrawView|
                {
                    &&& EntryView::File(self@).draw_suits(draw)
                    &&& !(self@.kind is Custom) ==> self@.bytes(draw.seed).len()
                        == self@.resolved_size()
                    &&& ops_of(final(plan)@) == ops_of(old(plan)@).push(
                        #[trigger] self@.op(at@, draw),
                    )
                },
    {
        let draw = self.draw();
        let op = self.build_with(at, &draw);
        plan.push(op);
        Ok(())
    }

    /// Draws what building the file needs: two words joined by a hyphen
    /// where it has no name, a seed where it is random and has none; what is
    /// not needed is left blank.
    pub fn draw(&self) -> (draw: Draw)
        ensures
            EntryView::File(self@).draw_suits(draw@),
    {
        let word = match self.common_prop.name() {
            EntryName::Explicit(_) => String::new(),
            EntryName::Generated(_) => gen_petname(),
        };
        let seed = match &self.kind {
            FileKind::Random(None) => fresh_seed(),
            _ => 0,
        };
        Draw { word, seed }
    }
}

/// `word` between `prefix` and `suffix`.
fn affixed(prefix: &str, word: &str, suffix: &str) -> (made: String)
    ensures
        made@ == prefix@ + word@ + suffix@,
{
    let mut made = String::from_str(prefix);
    made.append(word);
    made.append(suffix);
    made
}

/// `size` bytes, each of them `byte`.
fn repeat(byte: u8, size: usize) -> (bytes: Vec<u8>)
    ensures
        bytes@ == Seq::new(size as nat, |i: int| byte),
{
    let mut bytes: Vec<u8> = Vec::new();
    while bytes.len() < size
        invariant
            bytes@.len() <= size,
            forall|i: int| 0 <= i < bytes@.len() ==> bytes@[i] == byte,
        decreases size - bytes@.len(),
    {
        bytes.push(byte);
    }
    bytes
}

/// The same bytes once more.
fn copy_of(source: &Vec<u8>) -> (bytes: Vec<u8>)
    ensures
        bytes@ == source@,
{
    let mut bytes: Vec<u8> = Vec::new();
    while bytes.len() < source.len()
        invariant
            bytes@.len() <= source@.len(),
            forall|i: int| 0 <= i < bytes@.len() ==> bytes@[i] == source@[i],
        decreases source@.len() - bytes@.len(),
    {
        bytes.push(source[bytes.len()]);
    }
    bytes
}

} // verus!
