use athena::entry::{plan_archive, plan_entry, EntryMeta, EntryPlan};
use athena::error::AthenaError;
use athena::naming::{archive_name, candidate_name, decimal_string, default_stem, extension, stamped_stem};
use athena::paths::{base_name, get_inp_path_only, join, parent_dir, relative_path};
use athena::validate::{answer, archive, input, output, output_plan, parse_reply, OutputPlan};
use athena::walk::{DirEntry, NodeKind, Walker};
use athena::Options;

fn s(x: &str) -> String {
    x.to_string()
}

fn file_meta(size: u64) -> EntryMeta {
    EntryMeta { is_symlink: false, size, uid: 1000, gid: 1000, target: String::new() }
}

fn link_meta(target: &str) -> EntryMeta {
    EntryMeta { is_symlink: true, size: 5, uid: 1000, gid: 100, target: s(target) }
}

#[test]
fn parent_and_base_name() {
    assert_eq!(parent_dir(&s("/home/u/a.txt")), "/home/u");
    assert_eq!(parent_dir(&s("/a.txt")), "/");
    assert_eq!(parent_dir(&s("a.txt")), "");
    assert_eq!(base_name(&s("/home/u/docs")), "docs");
    assert_eq!(base_name(&s("docs")), "docs");
}

#[test]
fn input_only_path() {
    assert_eq!(get_inp_path_only(&s("/home/u/a.txt"), true), "/home/u");
    assert_eq!(get_inp_path_only(&s("/home/u/docs"), false), "/home/u/docs");
}

#[test]
fn relative_paths() {
    assert_eq!(relative_path(&s("/r/d/a.txt"), &s("/r/d")), Some(s("a.txt")));
    assert_eq!(relative_path(&s("/r/d/sub/c"), &s("/r/d")), Some(s("sub/c")));
    assert_eq!(relative_path(&s("/a.txt"), &s("/")), Some(s("a.txt")));
    assert_eq!(relative_path(&s("a.txt"), &s("")), Some(s("a.txt")));
    assert_eq!(relative_path(&s("/r/dx/a"), &s("/r/d")), None);
    assert_eq!(relative_path(&s("/other/a"), &s("/r/d")), None);
}

#[test]
fn joining() {
    assert_eq!(join(&s("/r/d"), &s("a")), "/r/d/a");
    assert_eq!(join(&s("/r/d/"), &s("a")), "/r/d/a");
    assert_eq!(join(&s(""), &s("a")), "a");
}

#[test]
fn decimal_numbers() {
    assert_eq!(decimal_string(0), "0");
    assert_eq!(decimal_string(7), "7");
    assert_eq!(decimal_string(10), "10");
    assert_eq!(decimal_string(1234), "1234");
    assert_eq!(decimal_string(u64::MAX), u64::MAX.to_string());
}

#[test]
fn candidate_names() {
    assert_eq!(extension(true), "tgz");
    assert_eq!(extension(false), "tar");
    assert_eq!(candidate_name(&s("X"), "tar", 0), "X.tar");
    assert_eq!(candidate_name(&s("X"), "tar", 1), "X_1.tar");
    assert_eq!(candidate_name(&s("X"), "tgz", 12), "X_12.tgz");
}

#[test]
fn free_name_is_kept() {
    assert_eq!(archive_name(&s("X"), false, &vec![]), "X.tar");
    assert_eq!(archive_name(&s("X"), true, &vec![s("X.tar")]), "X.tgz");
}

#[test]
fn taken_name_gets_first_free_suffix() {
    assert_eq!(archive_name(&s("X"), false, &vec![s("X.tar")]), "X_1.tar");
    assert_eq!(archive_name(&s("X"), false, &vec![s("X_1.tar"), s("X.tar"), s("other")]), "X_2.tar");
    assert_eq!(archive_name(&s("X"), false, &vec![s("X.tar"), s("X_2.tar")]), "X_1.tar");
}

#[test]
fn stamped_stems() {
    assert_eq!(stamped_stem(&s("202401021530"), &s("/home/u/docs")), "202401021530-docs");
    let stem = default_stem(&s("/home/u/docs"));
    assert!(stem.ends_with("-docs"));
    assert_eq!(stem.len(), "202401021530-docs".len());
}

#[test]
fn missing_input_is_refused() {
    let r = input(s("file/that/doesnt/exist"), false);
    assert_eq!(r, Err(AthenaError::InputNotFound));
    assert_eq!(AthenaError::InputNotFound.message(), "Specified file or directory does not exist");
    assert_eq!(input(s("./"), true), Ok(s("./")));
}

#[test]
fn output_plans() {
    assert_eq!(output_plan(true, false, false), OutputPlan::Ready);
    assert_eq!(output_plan(false, true, true), OutputPlan::Ready);
    assert_eq!(output_plan(false, true, false), OutputPlan::AskToCreate);
    assert_eq!(output_plan(false, false, true), OutputPlan::AskToCreate);
}

#[test]
fn output_replies() {
    assert_eq!(output(s("out"), " Y \n"), Ok(s("out")));
    assert_eq!(output(s("out"), "y\n"), Ok(s("out")));
    assert_eq!(output(s("out"), "n\n"), Err(AthenaError::OutputAborted));
    assert_eq!(output(s("out"), ""), Err(AthenaError::OutputAborted));
    assert_eq!(AthenaError::OutputAborted.message(), "Output directory does not exist");
}

#[test]
fn yes_no_answers() {
    assert_eq!(answer("y", false), Some(true));
    assert_eq!(answer("yes", false), Some(true));
    assert_eq!(answer("no", true), Some(false));
    assert_eq!(answer("", true), Some(true));
    assert_eq!(answer("maybe", true), None);
    assert_eq!(parse_reply("  YES\n", false), Some(true));
    assert_eq!(parse_reply("N\n", true), Some(false));
    assert_eq!(parse_reply("\n", false), Some(false));
    assert_eq!(parse_reply("what", false), None);
}

#[test]
fn archive_checks() {
    let gz = vec![0x1f, 0x8b];
    let tar = vec![b'a', b'.'];
    assert_eq!(archive(s("o.tar"), false, 0, 0, &vec![], false), Err(AthenaError::NotWritten));
    assert_eq!(archive(s("o.tar"), true, 0, 3, &vec![], false), Err(AthenaError::Empty));
    assert_eq!(archive(s("o.tgz"), true, 300, 3, &tar, true), Err(AthenaError::Invalid));
    assert_eq!(archive(s("o.tgz"), true, 1, 3, &vec![0x1f], true), Err(AthenaError::Invalid));
    assert_eq!(archive(s("o.tgz"), true, 300, 3, &gz, true), Ok(s("o.tgz")));
    assert_eq!(archive(s("o.tar"), true, 3072, 3, &tar, false), Ok(s("o.tar")));
    assert!(AthenaError::Invalid.removes_archive());
    assert!(!AthenaError::NotWritten.removes_archive());
    assert_eq!(AthenaError::Invalid.message(), "Invalid archive");
    assert_eq!(AthenaError::NotWritten.message(), "Failed to write archive");
}

#[test]
fn zero_entries_remove_the_archive() {
    let r = archive(s("/out/x.tar"), true, 10240, 0, &vec![0, 0], false);
    assert_eq!(r, Err(AthenaError::Empty));
    let e = r.unwrap_err();
    assert!(e.removes_archive());
    assert_eq!(e.message(), "No files were processed");
}

fn walk_scenario() -> Vec<String> {
    let mut w = Walker::new(s("/t/d"), NodeKind::Dir);
    assert!(!w.is_done());
    let d = w.next_dir();
    assert_eq!(d, Some(s("/t/d")));
    w.absorb(&vec![
        DirEntry { name: s("a.txt"), kind: NodeKind::File },
        DirEntry { name: s("b"), kind: NodeKind::Symlink },
        DirEntry { name: s("sub"), kind: NodeKind::Dir },
    ]);
    assert_eq!(w.next_dir(), Some(s("/t/d/sub")));
    w.absorb(&vec![DirEntry { name: s("c"), kind: NodeKind::File }]);
    assert!(w.is_done());
    assert_eq!(w.next_dir(), None);
    w.into_found()
}

#[test]
fn walk_finds_files_and_links_not_dirs() {
    assert_eq!(walk_scenario(), vec![s("/t/d/a.txt"), s("/t/d/b"), s("/t/d/sub/c")]);
}

#[test]
fn walk_of_symlink_root_is_the_link() {
    let mut w = Walker::new(s("/t/link"), NodeKind::Symlink);
    assert!(w.is_done());
    assert_eq!(w.next_dir(), None);
    assert_eq!(w.into_found(), vec![s("/t/link")]);
}

#[test]
fn absorb_without_current_dir_is_ignored() {
    let mut w = Walker::new(s("/t/a.txt"), NodeKind::File);
    w.absorb(&vec![DirEntry { name: s("x"), kind: NodeKind::File }]);
    assert_eq!(w.into_found(), vec![s("/t/a.txt")]);
}

#[test]
fn single_file_entry_is_its_base_name() {
    let root = s("/home/u/notes.txt");
    let w = Walker::new(root.clone(), NodeKind::File);
    let found = w.into_found();
    let base = get_inp_path_only(&root, true);
    let plans = plan_archive(&found, &base, &vec![file_meta(42)]).unwrap();
    assert_eq!(plans.len(), 1);
    assert_eq!(plans[0].name(), "notes.txt");
    assert_eq!(plans[0].size(), 42);
}

#[test]
fn directory_with_file_and_symlink() {
    let mut w = Walker::new(s("/t/proj"), NodeKind::Dir);
    let d = w.next_dir().unwrap();
    assert_eq!(d, "/t/proj");
    w.absorb(&vec![
        DirEntry { name: s("a.txt"), kind: NodeKind::File },
        DirEntry { name: s("b"), kind: NodeKind::Symlink },
    ]);
    let found = w.into_found();
    let base = get_inp_path_only(&s("/t/proj"), false);
    let plans = plan_archive(&found, &base, &vec![file_meta(10), link_meta("a.txt")]).unwrap();
    assert_eq!(plans.len(), 2);
    match &plans[0] {
        EntryPlan::Regular { source, name, size } => {
            assert_eq!(source, "/t/proj/a.txt");
            assert_eq!(name, "a.txt");
            assert_eq!(*size, 10);
        },
        EntryPlan::Symlink { .. } => panic!("a.txt should be a regular entry"),
    }
    match &plans[1] {
        EntryPlan::Symlink { name, target, uid, gid } => {
            assert_eq!(name, "b");
            assert_eq!(target, "a.txt");
            assert_eq!((*uid, *gid), (1000, 100));
        },
        EntryPlan::Regular { .. } => panic!("b should be a symlink entry"),
    }
    assert!(plans[1].is_symlink());
    assert_eq!(plans[1].size(), 0);
    let stem = stamped_stem(&s("202401021530"), &s("/t/proj"));
    assert_eq!(archive_name(&stem, false, &vec![]), "202401021530-proj.tar");
    assert_eq!(archive(s("/o/202401021530-proj.tar"), true, 3072, 2, &vec![b'a', b'.'], false), Ok(s("/o/202401021530-proj.tar")));
}

#[test]
fn nested_entries_keep_their_subtree() {
    let found = walk_scenario();
    let metas = vec![file_meta(1), link_meta("../x"), file_meta(3)];
    let plans = plan_archive(&found, &s("/t/d"), &metas).unwrap();
    let names: Vec<&String> = plans.iter().map(|p| p.name()).collect();
    assert_eq!(names, vec!["a.txt", "b", "sub/c"]);
    for (p, f) in plans.iter().zip(found.iter()) {
        assert_eq!(&join(&s("/t/d"), p.name()), f);
    }
}

#[test]
fn entry_outside_base_is_refused() {
    let r = plan_entry(&s("/elsewhere/a"), &s("/t/d"), &file_meta(1));
    assert!(matches!(r, Err(AthenaError::OutsideInput)));
    let r = plan_archive(&vec![s("/t/d/a"), s("/x/b")], &s("/t/d"), &vec![file_meta(1), file_meta(2)]);
    assert!(matches!(r, Err(AthenaError::OutsideInput)));
}

#[test]
fn options_are_copied() {
    let o = Options { verbose: true, upload: false, compression: true, input_path: s("/i"), output_path: s("/o") };
    let c = o.clone();
    assert_eq!(c.input_path, "/i");
    assert!(c.compression && c.verbose && !c.upload);
}
