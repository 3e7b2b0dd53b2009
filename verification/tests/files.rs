use rand_dir::entry::file::DEFAULT_FILE_SIZE;
use rand_dir::{Draw, File, FsOp, NameAllocator, TreePath};

fn contents_of(op: FsOp) -> Vec<u8> {
    match op {
        FsOp::WriteFile { contents, .. } => contents,
        other => panic!("not a file: {:?}", other),
    }
}

fn name_of(op: &FsOp) -> String {
    match op {
        FsOp::WriteFile { path, .. } => path.segments.last().unwrap().clone(),
        other => panic!("not a file: {:?}", other),
    }
}

fn built(file: &File) -> Vec<u8> {
    contents_of(file.build_with(&TreePath::root(), &Draw::blank()))
}

#[test]
fn custom_bytes_come_out_as_they_went_in() {
    let mut names = NameAllocator::new();
    let bytes = b"Hello, World!".to_vec();
    assert_eq!(built(&File::custom(bytes.clone(), &mut names)), bytes);
    assert_eq!(File::custom(bytes.clone(), &mut names).contents(99), bytes);
    assert_eq!(built(&File::custom(Vec::new(), &mut names)), Vec::<u8>::new());
    let all: Vec<u8> = (0..=255).collect();
    assert_eq!(built(&File::custom(all.clone(), &mut names)), all);
}

#[test]
fn size_of_custom_bytes_cannot_be_changed() {
    let mut names = NameAllocator::new();
    let bytes = vec![1u8, 2, 3, 4, 5];
    assert_eq!(built(&File::custom(bytes.clone(), &mut names).size(2)), bytes);
    assert_eq!(built(&File::custom(bytes.clone(), &mut names).size(100)), bytes);
    assert_eq!(built(&File::custom(bytes.clone(), &mut names).size(0)), bytes);
}

#[test]
fn zeroed_file_holds_zeros() {
    let mut names = NameAllocator::new();
    for size in [0usize, 1, 2, 128, 5000] {
        let contents = built(&File::zeroed(&mut names).size(size));
        assert_eq!(contents.len(), size);
        assert!(contents.iter().all(|byte| *byte == 0x00));
    }
}

#[test]
fn oned_file_holds_ones() {
    let mut names = NameAllocator::new();
    for size in [0usize, 1, 2, 128, 5000] {
        let contents = built(&File::oned(&mut names).size(size));
        assert_eq!(contents.len(), size);
        assert!(contents.iter().all(|byte| *byte == 0xFF));
    }
}

#[test]
fn size_defaults_to_four_kibibytes() {
    let mut names = NameAllocator::new();
    assert_eq!(DEFAULT_FILE_SIZE, 4096);
    assert_eq!(built(&File::zeroed(&mut names)), vec![0x00u8; 4096]);
    assert_eq!(built(&File::oned(&mut names)), vec![0xFFu8; 4096]);
    assert_eq!(built(&File::random_with_seed(1, &mut names)).len(), 4096);
    assert_eq!(built(&File::random(&mut names)).len(), 4096);
    assert_eq!(built(&File::default(&mut names)).len(), 4096);
}

#[test]
fn last_size_given_counts() {
    let mut names = NameAllocator::new();
    assert_eq!(built(&File::zeroed(&mut names).size(7).size(3)), vec![0u8; 3]);
}

#[test]
fn seeded_bytes_repeat() {
    let mut names = NameAllocator::new();
    let first = built(&File::random_with_seed(42, &mut names).size(1000));
    let second = built(&File::random_with_seed(42, &mut names).size(1000));
    assert_eq!(first.len(), 1000);
    assert_eq!(first, second);
    assert_eq!(File::random_with_seed(42, &mut names).size(1000).contents(7), first);
    assert_eq!(File::random_with_seed(42, &mut names).size(1000).contents(8), first);
}

#[test]
fn seeded_bytes_depend_on_the_seed() {
    let mut names = NameAllocator::new();
    let first = built(&File::random_with_seed(1, &mut names).size(64));
    let second = built(&File::random_with_seed(2, &mut names).size(64));
    assert_ne!(first, second);
    assert_ne!(first, vec![0u8; 64]);
    assert_ne!(first, vec![0xFFu8; 64]);
}

#[test]
fn seeded_bytes_of_no_size_are_none() {
    let mut names = NameAllocator::new();
    assert!(built(&File::random_with_seed(5, &mut names).size(0)).is_empty());
}

#[test]
fn drawn_seed_serves_where_the_file_has_none() {
    let mut names = NameAllocator::new();
    let file = File::random(&mut names).size(32);
    let with_seven = file.contents(7);
    assert_eq!(with_seven, File::random_with_seed(7, &mut names).size(32).contents(0));
    assert_eq!(
        contents_of(file.build_with(&TreePath::root(), &Draw::new("w", 7))),
        with_seven
    );
    assert_ne!(file.contents(8), with_seven);
}

#[test]
fn unseeded_files_draw_their_seed() {
    let mut names = NameAllocator::new();
    let mut plan = Vec::new();
    File::random(&mut names).size(64).name("a").try_build_at(&TreePath::root(), &mut plan).unwrap();
    File::random(&mut names).size(64).name("b").try_build_at(&TreePath::root(), &mut plan).unwrap();
    assert_eq!(plan.len(), 2);
    let second = contents_of(plan.pop().unwrap());
    let first = contents_of(plan.pop().unwrap());
    assert_eq!(first.len(), 64);
    assert_eq!(second.len(), 64);
    assert_ne!(first, second);
}

#[test]
fn draw_is_made_only_where_needed() {
    let mut names = NameAllocator::new();
    let named = File::zeroed(&mut names).name("n").draw();
    assert_eq!((named.word.as_str(), named.seed), ("", 0));
    let seeded = File::random_with_seed(3, &mut names).name("n").draw();
    assert_eq!((seeded.word.as_str(), seeded.seed), ("", 0));
    for _ in 0..50 {
        let nameless = File::zeroed(&mut names).draw();
        let (first, second) = nameless.word.split_once('-').unwrap();
        assert!(!first.is_empty() && !second.is_empty(), "{:?}", nameless.word);
        assert_eq!(nameless.seed, 0);
    }
}

#[test]
fn file_goes_by_its_name_or_by_what_was_drawn() {
    let mut names = NameAllocator::new();
    let at = TreePath::root().join("dir");
    let draw = Draw::new("tidy-wren", 0);
    let named = File::zeroed(&mut names).name("given").size(1).build_with(&at, &draw);
    assert_eq!(name_of(&named), "given");
    match &named {
        FsOp::WriteFile { path, .. } => assert_eq!(path.segments, vec!["dir", "given"]),
        other => panic!("not a file: {:?}", other),
    }
    assert_eq!(
        name_of(&File::zeroed(&mut names).size(1).build_with(&at, &draw)),
        "file-tidy-wren.zeroed"
    );
    assert_eq!(
        name_of(&File::oned(&mut names).size(1).build_with(&at, &draw)),
        "file-tidy-wren.oned"
    );
    assert_eq!(
        name_of(&File::random(&mut names).size(1).build_with(&at, &draw)),
        "file-tidy-wren.random"
    );
    assert_eq!(
        name_of(&File::random_with_seed(1, &mut names).size(1).build_with(&at, &draw)),
        "file-tidy-wren.random"
    );
    assert_eq!(
        name_of(&File::custom(vec![0], &mut names).build_with(&at, &draw)),
        "file-tidy-wren.custom"
    );
}
