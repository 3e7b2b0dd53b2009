use rand_dir::{
    BrokenSymlink, BuildError, Dir, Draw, File, FsOp, NameAllocator, RandDir, RandDirBuilder,
    TreePath,
};

fn path(segments: &[&str]) -> Vec<String> {
    segments.iter().map(|segment| segment.to_string()).collect()
}

fn segments(path: &TreePath) -> Vec<String> {
    path.segments.clone()
}

fn created_dir(op: &FsOp) -> Vec<String> {
    match op {
        FsOp::CreateDir { path } => segments(path),
        other => panic!("not a directory: {:?}", other),
    }
}

fn written_file(op: &FsOp) -> (Vec<String>, Vec<u8>) {
    match op {
        FsOp::WriteFile { path, contents } => (segments(path), contents.clone()),
        other => panic!("not a file: {:?}", other),
    }
}

fn created_symlink(op: &FsOp) -> (Vec<String>, Vec<String>) {
    match op {
        FsOp::Symlink { original, link } => (segments(original), segments(link)),
        other => panic!("not a symlink: {:?}", other),
    }
}

fn planned(builder: RandDirBuilder, draws: Vec<Draw>) -> Vec<FsOp> {
    let mut plan = Vec::new();
    let base = builder.try_build_with(draws, &mut plan).unwrap();
    assert_eq!(segments(&base), path(&["base"]));
    plan
}

fn duplicate_of(result: Result<RandDir, BuildError>) -> String {
    match result {
        Ok(_) => panic!("the build went through"),
        Err(error) => error.duplicate_name().clone(),
    }
}

// The tree that is built lies at `base`, and holds the directory and the file of 128 zero bytes.
#[test]
fn it_works() {
    let mut names = NameAllocator::new();
    let rand_dir = RandDir::builder()
        .dir(Dir::normal(&mut names).name("Outer dir"))
        .file(File::zeroed(&mut names).name("Outer file").size(128))
        .try_build()
        .unwrap();

    assert_eq!(segments(rand_dir.at()), path(&["base"]));
    let ops = rand_dir.ops();
    assert_eq!(ops.len(), 5);
    assert_eq!(created_dir(&ops[0]), path(&["symlinks"]));
    assert_eq!(created_dir(&ops[1]), path(&["broken-symlinks"]));
    assert_eq!(created_dir(&ops[2]), path(&["base"]));
    assert_eq!(created_dir(&ops[3]), path(&["base", "Outer dir"]));
    assert_eq!(written_file(&ops[4]), (path(&["base", "Outer file"]), vec![0u8; 128]));
}

#[test]
fn error_with_duplicate_entry_name() {
    let mut names = NameAllocator::new();
    let result = RandDir::builder()
        .file(File::random(&mut names).name("duplicate"))
        .dir(Dir::normal(&mut names).name("duplicate"))
        .try_build();

    assert!(result.is_err());
}

#[test]
fn file_and_dir_of_one_name_fail_with_that_name() {
    let mut names = NameAllocator::new();
    let result = RandDir::builder()
        .file(File::zeroed(&mut names).name("a").size(128))
        .dir(Dir::normal(&mut names).name("a"))
        .try_build();
    assert_eq!(duplicate_of(result), "a");
}

#[test]
fn file_and_dir_of_two_names_give_two_entries() {
    let mut names = NameAllocator::new();
    let rand_dir = RandDir::builder()
        .file(File::zeroed(&mut names).name("a").size(128))
        .dir(Dir::normal(&mut names).name("b"))
        .try_build()
        .unwrap();
    let ops = rand_dir.ops();
    assert_eq!(ops.len(), 5);
    assert_eq!(created_dir(&ops[2]), path(&["base"]));
    assert_eq!(written_file(&ops[3]), (path(&["base", "a"]), vec![0u8; 128]));
    assert_eq!(created_dir(&ops[4]), path(&["base", "b"]));
}

#[test]
fn duplicate_is_found_in_either_order_and_for_every_kind() {
    let mut names = NameAllocator::new();
    let file_then_dir = RandDir::builder()
        .file(File::oned(&mut names).name("twice"))
        .dir(Dir::symlink(&mut names).name("twice"))
        .try_build();
    assert_eq!(duplicate_of(file_then_dir), "twice");

    let dir_then_file = RandDir::builder()
        .dir(Dir::symlink(&mut names).name("twice"))
        .file(File::oned(&mut names).name("twice"))
        .try_build();
    assert_eq!(duplicate_of(dir_then_file), "twice");

    let links = RandDir::builder()
        .broken_symlink(BrokenSymlink::new(&mut names).name("twice"))
        .file(File::zeroed(&mut names).name("between"))
        .broken_symlink(BrokenSymlink::new(&mut names).name("twice"))
        .try_build();
    assert_eq!(duplicate_of(links), "twice");
}

#[test]
fn error_says_which_name_was_given_twice() {
    let mut names = NameAllocator::new();
    let result = RandDir::builder()
        .file(File::zeroed(&mut names).name("a \"b\""))
        .file(File::zeroed(&mut names).name("a \"b\""))
        .try_build();
    match result {
        Err(error) => {
            assert_eq!(error.duplicate_name(), "a \"b\"");
            assert_eq!(
                error.to_message(),
                "Directory had duplicate entry named: \"a \\\"b\\\"\""
            );
        }
        Ok(_) => panic!("the build went through"),
    }
    let plain = BuildError::DuplicateName("plain".to_string());
    assert_eq!(plain.to_message(), "Directory had duplicate entry named: \"plain\"");
}

#[test]
fn first_duplicate_is_kept() {
    let mut names = NameAllocator::new();
    let result = RandDir::builder()
        .file(File::zeroed(&mut names).name("x"))
        .file(File::zeroed(&mut names).name("x"))
        .file(File::zeroed(&mut names).name("y"))
        .file(File::zeroed(&mut names).name("y"))
        .try_build();
    assert_eq!(duplicate_of(result), "x");
}

#[test]
fn names_differ_by_case() {
    let mut names = NameAllocator::new();
    let rand_dir = RandDir::builder()
        .file(File::zeroed(&mut names).name("Name").size(1))
        .file(File::zeroed(&mut names).name("name").size(1))
        .try_build()
        .unwrap();
    assert_eq!(rand_dir.ops().len(), 5);
}

#[test]
fn duplicate_in_nested_directory_fails_the_build() {
    let mut names = NameAllocator::new();
    let inner = Dir::normal(&mut names)
        .name("inner")
        .file(File::zeroed(&mut names).name("same"))
        .dir(Dir::normal(&mut names).name("same"));
    let result = RandDir::builder()
        .file(File::zeroed(&mut names).name("before"))
        .dir(Dir::normal(&mut names).name("outer").dir(inner))
        .try_build();
    assert_eq!(duplicate_of(result), "same");
}

#[test]
fn entries_without_names_never_collide() {
    let mut names = NameAllocator::new();
    let rand_dir = RandDir::builder()
        .file(File::zeroed(&mut names).size(3))
        .file(File::zeroed(&mut names).size(3))
        .dir(Dir::normal(&mut names))
        .dir(Dir::normal(&mut names))
        .try_build()
        .unwrap();
    assert_eq!(rand_dir.ops().len(), 7);
}

#[test]
fn made_up_names_carry_their_kind() {
    let mut names = NameAllocator::new();
    let rand_dir = RandDir::builder()
        .file(File::zeroed(&mut names).size(1))
        .file(File::oned(&mut names).size(1))
        .file(File::random(&mut names).size(1))
        .file(File::custom(vec![1], &mut names))
        .dir(Dir::normal(&mut names))
        .dir(Dir::symlink(&mut names))
        .broken_symlink(BrokenSymlink::new(&mut names))
        .try_build()
        .unwrap();
    let ops = rand_dir.ops();
    assert_eq!(ops.len(), 11);
    let names: Vec<String> = vec![
        written_file(&ops[3]).0[1].clone(),
        written_file(&ops[4]).0[1].clone(),
        written_file(&ops[5]).0[1].clone(),
        written_file(&ops[6]).0[1].clone(),
        created_dir(&ops[7])[1].clone(),
        created_symlink(&ops[9]).1[1].clone(),
        created_symlink(&ops[10]).1[1].clone(),
    ];
    let affixes = [
        ("file-", ".zeroed"),
        ("file-", ".oned"),
        ("file-", ".random"),
        ("file-", ".custom"),
        ("dir-", ""),
        ("symlink-", ""),
        ("broken-symlink-", ""),
    ];
    for (name, (prefix, suffix)) in names.iter().zip(affixes.iter()) {
        assert!(name.starts_with(prefix), "{} lacks {}", name, prefix);
        assert!(name.ends_with(suffix), "{} lacks {}", name, suffix);
        let word = &name[prefix.len()..name.len() - suffix.len()];
        assert!(word.contains('-'), "{} holds no two words", name);
    }
}

#[test]
fn made_up_names_use_what_was_drawn() {
    let mut names = NameAllocator::new();
    let draws = vec![
        Draw::new("unused", 0),
        Draw::new("calm-otter", 0),
        Draw::new("brave-newt", 0),
        Draw::new("shy-mole", 0),
        Draw::new("odd-crab", 0),
    ];
    let builder = RandDir::builder()
        .file(File::zeroed(&mut names).size(2))
        .dir(Dir::normal(&mut names))
        .dir(Dir::symlink(&mut names))
        .broken_symlink(BrokenSymlink::new(&mut names));
    let ops = planned(builder, draws);
    assert_eq!(ops.len(), 8);
    assert_eq!(
        written_file(&ops[3]),
        (path(&["base", "file-calm-otter.zeroed"]), vec![0u8; 2])
    );
    assert_eq!(created_dir(&ops[4]), path(&["base", "dir-brave-newt"]));
    assert_eq!(created_dir(&ops[5]), path(&["symlinks", "symlink-dest-1"]));
    assert_eq!(
        created_symlink(&ops[6]),
        (path(&["symlinks", "symlink-dest-1"]), path(&["base", "symlink-shy-mole"]))
    );
    assert_eq!(
        created_symlink(&ops[7]),
        (
            path(&["broken-symlinks", "broken-symlink-dest-1"]),
            path(&["base", "broken-symlink-odd-crab"])
        )
    );
}

#[test]
fn missing_draws_count_as_blank() {
    let mut names = NameAllocator::new();
    let ops = planned(RandDir::builder().file(File::random(&mut names).size(4)), Vec::new());
    let (name, contents) = written_file(&ops[3]);
    assert_eq!(name, path(&["base", "file-.random"]));
    let seeded = RandDir::builder()
        .file(File::random_with_seed(0, &mut names).name("seeded").size(4))
        .try_build()
        .unwrap();
    assert_eq!(contents, written_file(&seeded.ops()[3]).1);
}

#[test]
fn children_are_built_in_the_order_of_their_names() {
    let mut names = NameAllocator::new();
    let builder = RandDir::builder()
        .file(File::zeroed(&mut names).size(1))
        .file(File::zeroed(&mut names).name("b").size(1))
        .dir(Dir::normal(&mut names).name("c"))
        .file(File::oned(&mut names).size(1))
        .file(File::zeroed(&mut names).name("a").size(1))
        .file(File::zeroed(&mut names).name("B").size(1))
        .file(File::zeroed(&mut names).name("").size(1))
        .file(File::zeroed(&mut names).name("ab").size(1));
    let mut draws = vec![Draw::blank(); 7];
    draws.push(Draw::new("first", 0));
    draws.push(Draw::new("second", 0));
    let ops = planned(builder, draws);
    assert_eq!(ops.len(), 11);
    assert_eq!(written_file(&ops[3]).0, path(&["base", ""]));
    assert_eq!(written_file(&ops[4]).0, path(&["base", "B"]));
    assert_eq!(written_file(&ops[5]).0, path(&["base", "a"]));
    assert_eq!(written_file(&ops[6]).0, path(&["base", "ab"]));
    assert_eq!(written_file(&ops[7]).0, path(&["base", "b"]));
    assert_eq!(created_dir(&ops[8]), path(&["base", "c"]));
    assert_eq!(written_file(&ops[9]), (path(&["base", "file-first.zeroed"]), vec![0x00]));
    assert_eq!(written_file(&ops[10]), (path(&["base", "file-second.oned"]), vec![0xFF]));
}

#[test]
fn many_names_come_out_in_order_whatever_order_they_went_in() {
    let mut ordinals = NameAllocator::new();
    let mut state = 0x2545_F491_4F6C_DD1Du64;
    let mut names: Vec<String> = Vec::new();
    while names.len() < 150 {
        state ^= state << 13;
        state ^= state >> 7;
        state ^= state << 17;
        let name = format!("n{}", state % 1000);
        if !names.contains(&name) {
            names.push(name);
        }
    }
    let mut builder = RandDir::builder();
    for name in &names {
        builder = builder.file(File::zeroed(&mut ordinals).name(name).size(0));
    }
    let twice = builder.clone().dir(Dir::normal(&mut ordinals).name(&names[77]));
    assert_eq!(duplicate_of(twice.try_build()), names[77]);

    let rand_dir = builder.try_build().unwrap();
    let built: Vec<String> =
        rand_dir.ops()[3..].iter().map(|op| written_file(op).0[1].clone()).collect();
    names.sort();
    assert_eq!(built, names);
}

#[test]
fn symlinked_directory_lies_among_the_targets() {
    let mut names = NameAllocator::new();
    let rand_dir = RandDir::builder()
        .dir(
            Dir::symlink(&mut names)
                .name("link")
                .file(File::custom(vec![7, 8, 9], &mut names).name("inside"))
                .dir(Dir::normal(&mut names).name("deeper")),
        )
        .try_build()
        .unwrap();
    let ops = rand_dir.ops();
    assert_eq!(ops.len(), 7);
    assert_eq!(created_dir(&ops[3]), path(&["symlinks", "symlink-dest-1"]));
    assert_eq!(created_dir(&ops[4]), path(&["symlinks", "symlink-dest-1", "deeper"]));
    assert_eq!(
        written_file(&ops[5]),
        (path(&["symlinks", "symlink-dest-1", "inside"]), vec![7, 8, 9])
    );
    assert_eq!(
        created_symlink(&ops[6]),
        (path(&["symlinks", "symlink-dest-1"]), path(&["base", "link"]))
    );
}

#[test]
fn nothing_is_created_where_a_broken_symlink_points() {
    let mut names = NameAllocator::new();
    let rand_dir = RandDir::builder()
        .broken_symlink(BrokenSymlink::new(&mut names).name("dangling"))
        .dir(
            Dir::symlink(&mut names).name("link")
                .broken_symlink(BrokenSymlink::new(&mut names).name("inner")),
        )
        .file(File::zeroed(&mut names).name("file").size(1))
        .try_build()
        .unwrap();
    let mut targets = Vec::new();
    let mut created = Vec::new();
    for op in rand_dir.ops() {
        match op {
            FsOp::CreateDir { path } => created.push(segments(path)),
            FsOp::WriteFile { path, .. } => created.push(segments(path)),
            FsOp::Symlink { original, link } => {
                created.push(segments(link));
                if original.segments[0] == "broken-symlinks" {
                    targets.push(segments(original));
                }
            }
        }
    }
    assert_eq!(
        targets,
        vec![
            path(&["broken-symlinks", "broken-symlink-dest-1"]),
            path(&["broken-symlinks", "broken-symlink-dest-2"]),
        ]
    );
    for target in &targets {
        for made in &created {
            assert!(!made.starts_with(target), "{:?} lies at {:?}", made, target);
        }
    }
}

#[test]
fn targets_are_numbered_apart() {
    let mut names = NameAllocator::new();
    let rand_dir = RandDir::builder()
        .dir(Dir::symlink(&mut names).name("a").dir(Dir::symlink(&mut names).name("nested")))
        .dir(Dir::symlink(&mut names).name("b"))
        .dir(Dir::symlink(&mut names))
        .try_build()
        .unwrap();
    let mut targets = Vec::new();
    for op in rand_dir.ops() {
        if let FsOp::Symlink { original, .. } = op {
            targets.push(segments(original));
        }
    }
    assert_eq!(
        targets,
        vec![
            path(&["symlinks", "symlink-dest-2"]),
            path(&["symlinks", "symlink-dest-1"]),
            path(&["symlinks", "symlink-dest-3"]),
            path(&["symlinks", "symlink-dest-4"]),
        ]
    );
}

#[test]
fn every_build_numbers_its_targets_anew() {
    let mut names = NameAllocator::new();
    let builder = RandDir::builder().dir(Dir::symlink(&mut names).name("a"));
    let first = builder.clone().try_build().unwrap();
    let second = builder.try_build().unwrap();
    assert_eq!(created_dir(&first.ops()[3]), path(&["symlinks", "symlink-dest-1"]));
    assert_eq!(created_dir(&second.ops()[3]), path(&["symlinks", "symlink-dest-1"]));
}

#[test]
fn plan_goes_on_from_what_is_there() {
    let mut names = NameAllocator::new();
    let mut plan = vec![FsOp::CreateDir { path: TreePath::root().join("earlier") }];
    let base = RandDir::builder()
        .file(File::zeroed(&mut names).name("f").size(1))
        .try_build_with(Vec::new(), &mut plan)
        .unwrap();
    assert_eq!(segments(&base), path(&["base"]));
    assert_eq!(plan.len(), 5);
    assert_eq!(created_dir(&plan[0]), path(&["earlier"]));
    assert_eq!(created_dir(&plan[1]), path(&["symlinks"]));
    assert_eq!(created_dir(&plan[2]), path(&["broken-symlinks"]));
    assert_eq!(created_dir(&plan[3]), path(&["base"]));
    assert_eq!(written_file(&plan[4]), (path(&["base", "f"]), vec![0u8]));
}

#[test]
fn what_comes_before_a_duplicate_is_planned() {
    let mut names = NameAllocator::new();
    let mut plan = Vec::new();
    let result = RandDir::builder()
        .file(File::oned(&mut names).name("a").size(1))
        .dir(
            Dir::normal(&mut names).name("b")
                .file(File::zeroed(&mut names).name("x"))
                .dir(Dir::symlink(&mut names).name("x")),
        )
        .file(File::oned(&mut names).name("c").size(1))
        .try_build_with(Vec::new(), &mut plan);
    match result {
        Err(BuildError::DuplicateName(name)) => assert_eq!(name, "x"),
        Ok(_) => panic!("the build went through"),
    }
    assert_eq!(plan.len(), 4);
    assert_eq!(created_dir(&plan[2]), path(&["base"]));
    assert_eq!(written_file(&plan[3]), (path(&["base", "a"]), vec![0xFFu8]));
}

#[test]
fn one_draw_is_made_for_every_entry() {
    let mut names = NameAllocator::new();
    let builder = RandDir::builder()
        .dir(
            Dir::symlink(&mut names)
                .file(File::random(&mut names))
                .dir(Dir::normal(&mut names).name("named")),
        )
        .broken_symlink(BrokenSymlink::new(&mut names))
        .file(File::zeroed(&mut names).name("f"));
    let drawn = builder.draw();
    assert_eq!(drawn.len(), 6);
    let words: Vec<bool> = drawn.iter().map(|draw| draw.word.is_empty()).collect();
    // The tree itself, then `f`, then the symlinked directory with the
    // directory `named` and the random file, then the broken symlink.
    assert_eq!(words, vec![true, true, false, true, false, false]);
    assert!(drawn.iter().enumerate().all(|(i, draw)| i == 4 || draw.seed == 0));
}

#[test]
fn empty_builder_plans_the_layout() {
    let rand_dir = RandDirBuilder::new().try_build().unwrap();
    let ops = rand_dir.ops();
    assert_eq!(ops.len(), 3);
    assert_eq!(created_dir(&ops[0]), path(&["symlinks"]));
    assert_eq!(created_dir(&ops[1]), path(&["broken-symlinks"]));
    assert_eq!(created_dir(&ops[2]), path(&["base"]));
    assert_eq!(segments(rand_dir.at()), path(&["base"]));
}

#[test]
fn copy_of_a_builder_gives_the_same_plan() {
    let mut names = NameAllocator::new();
    let builder = RandDir::builder()
        .dir(
            Dir::symlink(&mut names).name("link")
                .file(File::random_with_seed(3, &mut names).name("r").size(16)),
        )
        .file(File::oned(&mut names).name("ones").size(2))
        .broken_symlink(BrokenSymlink::new(&mut names).name("gone"));
    let copy = builder.clone();
    let first = builder.try_build().unwrap();
    let second = copy.try_build().unwrap();
    assert_eq!(format!("{:?}", first.ops()), format!("{:?}", second.ops()));
    assert_eq!(first.ops().len(), 8);
}
