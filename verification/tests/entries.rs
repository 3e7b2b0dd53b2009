use rand_dir::entry::EntryName;
use rand_dir::{
    BrokenSymlink, BuildError, Dir, Draw, Draws, Entry, File, FsOp, NameAllocator, NameCategory,
    Permissions, TreePath,
};

fn path(segments: &[&str]) -> Vec<String> {
    segments.iter().map(|segment| segment.to_string()).collect()
}

fn tree_path(segments: &[&str]) -> TreePath {
    let mut path = TreePath::root();
    for segment in segments {
        path = path.join(segment);
    }
    path
}

fn created(op: &FsOp) -> Vec<String> {
    match op {
        FsOp::CreateDir { path } => path.segments.clone(),
        FsOp::WriteFile { path, .. } => path.segments.clone(),
        FsOp::Symlink { link, .. } => link.segments.clone(),
    }
}

fn name_of(entry: &Entry) -> String {
    match entry.get_common_prop().name() {
        EntryName::Explicit(text) => format!("explicit {}", text),
        EntryName::Generated(ordinal) => format!("generated {}", ordinal),
    }
}

#[test]
fn paths_grow_by_one_segment() {
    let root = TreePath::root();
    assert!(root.segments.is_empty());
    let below = root.join("a").join("b c");
    assert_eq!(below.segments, path(&["a", "b c"]));
    assert!(root.segments.is_empty());
    assert_eq!(below.clone().segments, below.segments);
}

#[test]
fn draws_are_used_up_in_order() {
    let mut draws = Draws::new(vec![Draw::new("one", 1), Draw::new("two", 2)]);
    let first = draws.take();
    assert_eq!((first.word.as_str(), first.seed), ("one", 1));
    let second = draws.take();
    assert_eq!((second.word.as_str(), second.seed), ("two", 2));
    let third = draws.take();
    assert_eq!((third.word.as_str(), third.seed), ("", 0));
    let fourth = draws.take();
    assert_eq!((fourth.word.as_str(), fourth.seed), ("", 0));
    let blank = Draw::blank();
    assert_eq!((blank.word.as_str(), blank.seed), ("", 0));
}

#[test]
fn broken_symlink_draws_two_words_where_it_has_no_name() {
    let mut names = NameAllocator::new();
    let named = BrokenSymlink::new(&mut names).name("n").draw();
    assert_eq!((named.word.as_str(), named.seed), ("", 0));
    for _ in 0..50 {
        let nameless = BrokenSymlink::new(&mut names).draw();
        let (first, second) = nameless.word.split_once('-').unwrap();
        assert!(!first.is_empty() && !second.is_empty(), "{:?}", nameless.word);
        assert_eq!(nameless.seed, 0);
    }
}

#[test]
fn entries_start_with_an_ordinal_of_their_own() {
    let mut names = NameAllocator::new();
    assert_eq!(name_of(&Entry::File(File::zeroed(&mut names))), "generated 0");
    assert_eq!(name_of(&Entry::Dir(Dir::normal(&mut names))), "generated 1");
    assert_eq!(name_of(&Entry::Dir(Dir::symlink(&mut names))), "generated 2");
    assert_eq!(name_of(&Entry::BrokenSymlink(BrokenSymlink::new(&mut names))), "generated 3");
    assert_eq!(name_of(&Entry::BrokenSymlink(BrokenSymlink::default(&mut names))), "generated 4");
    assert_eq!(name_of(&Entry::File(File::default(&mut names))), "generated 5");
    assert_eq!(name_of(&Entry::Dir(Dir::default(&mut names))), "generated 6");
    assert_eq!(name_of(&Entry::File(File::custom(vec![1], &mut names))), "generated 7");
    assert_eq!(names.peek(NameCategory::Entry), 8);
    assert_eq!(names.peek(NameCategory::SymlinkDest), 1);
    assert_eq!(names.peek(NameCategory::BrokenSymlinkDest), 1);
}

#[test]
fn entries_without_names_differ_while_they_stand_alone() {
    let mut names = NameAllocator::new();
    let first = Entry::File(File::zeroed(&mut names));
    let second = Entry::File(File::zeroed(&mut names));
    let third = Entry::Dir(Dir::normal(&mut names));
    assert!(first != second && second != third && first != third);
    assert!(first < second && second < third);
    assert!(first == first);
}

#[test]
fn fresh_names_differ_from_all_made_before() {
    let mut names = NameAllocator::new();
    let mut made: Vec<EntryName> = Vec::new();
    for expected in 0..50u64 {
        let name = EntryName::default(&mut names);
        assert_eq!(name, EntryName::Generated(expected));
        assert!(made.iter().all(|earlier| *earlier != name && *earlier < name));
        made.push(name);
    }
    assert_eq!(names.peek(NameCategory::Entry), 50);
}

#[test]
fn copy_of_a_generated_name_is_numbered_anew() {
    let mut names = NameAllocator::new();
    let source = EntryName::default(&mut names);
    let copy = source.clone(&mut names);
    let again = source.clone(&mut names);
    assert_eq!(source, EntryName::Generated(0));
    assert_eq!(copy, EntryName::Generated(1));
    assert_eq!(again, EntryName::Generated(2));
    assert!(copy != source && again != source && again != copy);

    let given = EntryName::Explicit("given".to_string());
    assert_eq!(given.clone(&mut names), given);
    assert_eq!(names.peek(NameCategory::Entry), 3);
}

#[test]
fn copy_of_an_entry_without_a_name_differs_from_it() {
    let mut names = NameAllocator::new();
    let file = Entry::File(File::oned(&mut names).size(3));
    let link = Entry::BrokenSymlink(BrokenSymlink::new(&mut names));
    let dir = Entry::Dir(Dir::symlink(&mut names).file(File::zeroed(&mut names)));
    let named = Entry::File(File::zeroed(&mut names).name("kept"));
    let ordinal = names.peek(NameCategory::Entry);
    assert_eq!(ordinal, 5);
    let file_copy = file.clone(&mut names);
    let link_copy = link.clone(&mut names);
    let dir_copy = dir.clone(&mut names);
    let named_copy = named.clone(&mut names);
    assert_eq!(name_of(&file_copy), "generated 5");
    assert_eq!(name_of(&link_copy), "generated 6");
    assert_eq!(name_of(&dir_copy), "generated 7");
    assert_eq!(name_of(&named_copy), "explicit kept");
    assert!(file_copy != file && link_copy != link && dir_copy != dir);
    assert!(named_copy == named);
    assert_eq!(names.peek(NameCategory::Entry), 8);
}

#[test]
fn last_name_given_counts() {
    let mut names = NameAllocator::new();
    assert_eq!(name_of(&Entry::File(File::zeroed(&mut names).name("a").name("b"))), "explicit b");
    assert_eq!(name_of(&Entry::Dir(Dir::normal(&mut names).name("a").name("b"))), "explicit b");
    assert_eq!(
        name_of(&Entry::BrokenSymlink(BrokenSymlink::new(&mut names).name("a").name("b"))),
        "explicit b"
    );
}

#[test]
fn adoption_numbers_the_nameless_only() {
    let mut names = NameAllocator::new();
    assert_eq!(name_of(&Entry::File(File::zeroed(&mut names)).adopted(5)), "generated 5");
    assert_eq!(name_of(&Entry::Dir(Dir::normal(&mut names)).adopted(6)), "generated 6");
    assert_eq!(
        name_of(&Entry::BrokenSymlink(BrokenSymlink::new(&mut names)).adopted(7)),
        "generated 7"
    );
    assert_eq!(
        name_of(&Entry::File(File::zeroed(&mut names).name("kept")).adopted(5)),
        "explicit kept"
    );
}

#[test]
fn entries_compare_by_name_alone() {
    let mut names = NameAllocator::new();
    let file = Entry::File(File::zeroed(&mut names).name("same").size(1));
    let dir = Entry::Dir(Dir::normal(&mut names).name("same").file(File::oned(&mut names)));
    let link = Entry::BrokenSymlink(BrokenSymlink::new(&mut names).name("other"));
    assert!(file == dir);
    assert!(file != link);
    assert!(link < file);
    assert!(!(file < link));
    assert!(!(file < dir));
    let first = Entry::File(File::zeroed(&mut names)).adopted(10);
    let second = Entry::File(File::zeroed(&mut names)).adopted(20);
    assert!(first < second);
    assert!(first != second);
    assert!(file < first);
    assert!(!(first < file));
}

#[test]
fn names_compare_by_kind_then_by_content() {
    let a = EntryName::Explicit("a".to_string());
    let b = EntryName::Explicit("b".to_string());
    let one = EntryName::Generated(1);
    let two = EntryName::Generated(2);
    assert!(a.precedes(&b));
    assert!(!b.precedes(&a));
    assert!(!a.precedes(&a));
    assert!(b.precedes(&one));
    assert!(!one.precedes(&a));
    assert!(one.precedes(&two));
    assert!(!two.precedes(&one));
    assert!(a.same_as(&EntryName::Explicit("a".to_string())));
    assert!(!a.same_as(&b));
    assert!(!one.same_as(&two));
    assert!(one.same_as(&EntryName::Generated(1)));
    assert!(a < b && b < one && one < two);
    assert!(a == EntryName::Explicit("a".to_string()) && one != two);
}

#[test]
fn explicit_name_is_used_before_anything_is_made_up() {
    let given = EntryName::Explicit("given".to_string());
    assert_eq!(given.unwrap_or_else(|| "made up".to_string()), "given");
    let missing = EntryName::Generated(3);
    assert_eq!(missing.unwrap_or_else(|| "made up".to_string()), "made up");
}

#[test]
fn entry_is_planned_where_it_is_told() {
    let mut names = NameAllocator::new();
    let at = tree_path(&["here"]);
    let symlinks = tree_path(&["links"]);
    let broken_symlinks = tree_path(&["gone"]);
    let mut plan = Vec::new();
    let entry = Entry::Dir(
        Dir::symlink(&mut names)
            .name("d")
            .broken_symlink(BrokenSymlink::new(&mut names).name("b"))
            .file(File::zeroed(&mut names).name("f").size(0)),
    );
    entry.try_build_at(&at, &symlinks, &broken_symlinks, &mut names, &mut plan).unwrap();
    assert_eq!(plan.len(), 4);
    assert_eq!(created(&plan[0]), path(&["links", "symlink-dest-1"]));
    match &plan[1] {
        FsOp::Symlink { original, link } => {
            assert_eq!(original.segments, path(&["gone", "broken-symlink-dest-1"]));
            assert_eq!(link.segments, path(&["links", "symlink-dest-1", "b"]));
        }
        other => panic!("unexpected operation: {:?}", other),
    }
    match &plan[2] {
        FsOp::WriteFile { path: written, contents } => {
            assert_eq!(written.segments, path(&["links", "symlink-dest-1", "f"]));
            assert!(contents.is_empty());
        }
        other => panic!("unexpected operation: {:?}", other),
    }
    match &plan[3] {
        FsOp::Symlink { original, link } => {
            assert_eq!(original.segments, path(&["links", "symlink-dest-1"]));
            assert_eq!(link.segments, path(&["here", "d"]));
        }
        other => panic!("unexpected operation: {:?}", other),
    }
    assert_eq!(names.peek(NameCategory::SymlinkDest), 2);
    assert_eq!(names.peek(NameCategory::BrokenSymlinkDest), 2);
    assert_eq!(names.peek(NameCategory::Entry), 3);
}

#[test]
fn allocator_goes_on_from_one_entry_to_the_next() {
    let mut names = NameAllocator::new();
    let root = TreePath::root();
    let mut plan = Vec::new();
    for _ in 0..3 {
        BrokenSymlink::new(&mut names)
            .name("again")
            .try_build_at(&root, &root, &mut names, &mut plan)
            .unwrap();
    }
    let targets: Vec<String> = plan
        .iter()
        .map(|op| match op {
            FsOp::Symlink { original, .. } => original.segments[0].clone(),
            other => panic!("unexpected operation: {:?}", other),
        })
        .collect();
    assert_eq!(
        targets,
        vec!["broken-symlink-dest-1", "broken-symlink-dest-2", "broken-symlink-dest-3"]
    );
}

#[test]
fn what_was_planned_before_a_failure_stays() {
    let mut names = NameAllocator::new();
    let root = TreePath::root();
    let mut plan = Vec::new();
    let tree = Dir::normal(&mut names)
        .name("top")
        .file(File::zeroed(&mut names).name("a").size(1))
        .dir(
            Dir::normal(&mut names).name("b")
                .file(File::zeroed(&mut names).name("x"))
                .file(File::oned(&mut names).name("x")),
        )
        .file(File::zeroed(&mut names).name("c").size(1));
    let result = tree.try_build_at(&root, &root, &root, &mut names, &mut plan);
    match result {
        Err(BuildError::DuplicateName(name)) => assert_eq!(name, "x"),
        Ok(()) => panic!("the build went through"),
    }
    assert_eq!(plan.len(), 2);
    assert_eq!(created(&plan[0]), path(&["top"]));
    assert_eq!(created(&plan[1]), path(&["top", "a"]));
}

#[test]
fn failed_symlinked_directory_gets_no_symlink() {
    let mut names = NameAllocator::new();
    let root = TreePath::root();
    let symlinks = root.join("s");
    let mut plan = Vec::new();
    let tree = Dir::symlink(&mut names)
        .name("top")
        .dir(
            Dir::normal(&mut names).name("b")
                .file(File::zeroed(&mut names).name("x"))
                .file(File::oned(&mut names).name("x")),
        );
    let result = tree.try_build_at(&root, &symlinks, &root, &mut names, &mut plan);
    assert!(result.is_err());
    assert_eq!(plan.len(), 1);
    assert_eq!(created(&plan[0]), path(&["s", "symlink-dest-1"]));
    assert_eq!(names.peek(NameCategory::SymlinkDest), 2);
}

#[test]
fn directory_that_holds_a_duplicate_takes_in_no_more() {
    let mut names = NameAllocator::new();
    let root = TreePath::root();
    let mut plan = Vec::new();
    let tree = Dir::symlink(&mut names)
        .name("top")
        .file(File::zeroed(&mut names).name("x"))
        .file(File::zeroed(&mut names).name("x"))
        .file(File::zeroed(&mut names).name("y"))
        .file(File::zeroed(&mut names).name("y"));
    let result = tree.try_build_at(&root, &root, &root, &mut names, &mut plan);
    match result {
        Err(error) => assert_eq!(error.duplicate_name(), "x"),
        Ok(()) => panic!("the build went through"),
    }
    assert!(plan.is_empty());
    assert_eq!(names.peek(NameCategory::SymlinkDest), 1);
}

#[test]
fn demand_counts_the_targets() {
    let mut names = NameAllocator::new();
    let tree = Entry::Dir(
        Dir::symlink(&mut names)
            .dir(Dir::symlink(&mut names).broken_symlink(BrokenSymlink::new(&mut names)))
            .dir(Dir::normal(&mut names).broken_symlink(BrokenSymlink::new(&mut names)))
            .broken_symlink(BrokenSymlink::new(&mut names))
            .file(File::zeroed(&mut names)),
    );
    assert_eq!(tree.demand_within(NameCategory::SymlinkDest, 10), Some(8));
    assert_eq!(tree.demand_within(NameCategory::SymlinkDest, 2), Some(0));
    assert_eq!(tree.demand_within(NameCategory::SymlinkDest, 1), None);
    assert_eq!(tree.demand_within(NameCategory::BrokenSymlinkDest, 10), Some(7));
    assert_eq!(tree.demand_within(NameCategory::BrokenSymlinkDest, 3), Some(0));
    assert_eq!(tree.demand_within(NameCategory::BrokenSymlinkDest, 2), None);
    assert_eq!(tree.demand_within(NameCategory::Entry, 0), Some(0));
    assert_eq!(
        Entry::File(File::zeroed(&mut names)).demand_within(NameCategory::BrokenSymlinkDest, 0),
        Some(0)
    );
    assert_eq!(
        Entry::BrokenSymlink(BrokenSymlink::new(&mut names))
            .demand_within(NameCategory::BrokenSymlinkDest, 0),
        None
    );
}

#[test]
fn directory_fits_while_ordinals_are_left() {
    let mut names = NameAllocator::new();
    let tree = Dir::normal(&mut names)
        .dir(Dir::symlink(&mut names))
        .broken_symlink(BrokenSymlink::new(&mut names));
    assert!(tree.fits(&names));
    assert!(Dir::normal(&mut names).fits(&names));
    assert!(Entry::Dir(tree).fits(&names));
    assert!(Entry::File(File::zeroed(&mut names)).fits(&names));
    assert!(Entry::BrokenSymlink(BrokenSymlink::new(&mut names)).fits(&names));
}

#[test]
fn permissions_leave_the_plan_alone() {
    let mut names = NameAllocator::new();
    let root = TreePath::root();
    let plain = Dir::normal(&mut names).name("d").file(File::zeroed(&mut names).name("f").size(2));
    let tagged = Dir::normal(&mut names)
        .name("d")
        .permissions(Permissions { mode: 0o755 })
        .file(File::zeroed(&mut names).name("f").size(2).permissions(Permissions { mode: 0o600 }))
        .broken_symlink(
            BrokenSymlink::new(&mut names).name("z")
                .permissions(Permissions { mode: 0o777 }),
        );
    let mut plain_plan = Vec::new();
    plain.try_build_at(&root, &root, &root, &mut names, &mut plain_plan).unwrap();
    let mut tagged_plan = Vec::new();
    tagged.try_build_at(&root, &root, &root, &mut names, &mut tagged_plan).unwrap();
    assert_eq!(format!("{:?}", plain_plan), format!("{:?}", &tagged_plan[..2]));
    assert_eq!(tagged_plan.len(), 3);
}

#[test]
fn copies_are_the_same_description() {
    let mut names = NameAllocator::new();
    let tree = Entry::Dir(
        Dir::symlink(&mut names)
            .name("top")
            .file(File::custom(vec![1, 2, 3], &mut names).name("c"))
            .dir(
                Dir::normal(&mut names).name("inner")
                    .broken_symlink(BrokenSymlink::new(&mut names).name("b")),
            )
            .file(File::random_with_seed(9, &mut names).name("r").size(8)),
    );
    let copy = tree.clone(&mut names);
    let root = TreePath::root();
    let mut first = Vec::new();
    let mut second = Vec::new();
    tree.try_build_at(&root, &root, &root, &mut NameAllocator::new(), &mut first).unwrap();
    copy.try_build_at(&root, &root, &root, &mut NameAllocator::new(), &mut second).unwrap();
    assert_eq!(first.len(), 6);
    assert_eq!(format!("{:?}", first), format!("{:?}", second));
}
