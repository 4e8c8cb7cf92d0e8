use std::collections::BTreeMap;

use aos_realm::files::{
    CreateDirectoryArgs, DeleteFileArgs, FileStat, FsTools, GrepSearchArgs, MoveFileArgs,
    MoveStage, MoveTask, ReadFileArgs, ReplaceInFileArgs, WriteFileArgs, MOVE_FILE_MAX_BYTES,
};
use aos_realm::grep::{Awaiting, GREP_MAX_DEPTH, GREP_MAX_FILES};

fn range(start: Option<usize>, end: Option<usize>) -> String {
    let args = ReadFileArgs {
        file_path: "notes.txt".to_string(),
        start_line: start,
        end_line: end,
    };
    FsTools.read_file(&args, "one\ntwo\r\nthree\n")
}

#[test]
fn line_ranges_are_numbered_from_one() {
    assert_eq!(range(None, None), "one\ntwo\nthree");
    assert_eq!(range(Some(2), Some(3)), "two\nthree");
    assert_eq!(range(Some(0), Some(1)), "one");
    assert_eq!(range(Some(3), Some(99)), "three");
    assert_eq!(range(Some(4), None), "");
    assert_eq!(range(Some(3), Some(2)), "");
}

fn replacement(old: &str, new: &str, content: &str) -> Result<(String, String), String> {
    FsTools.replace_in_file(
        &ReplaceInFileArgs {
            file_path: "a.rs".to_string(),
            old_string: old.to_string(),
            new_string: new.to_string(),
        },
        content,
    )
}

#[test]
fn replacement_needs_exactly_one_occurrence() {
    assert_eq!(
        replacement("beta", "B", "alpha beta gamma"),
        Ok((
            "alpha B gamma".to_string(),
            "Successfully replaced text in a.rs".to_string()
        ))
    );
    assert_eq!(
        replacement("delta", "D", "alpha beta"),
        Err("Exact string not found in a.rs".to_string())
    );
    assert_eq!(
        replacement("a", "D", "alpha"),
        Err("Found 2 occurrences of string in a.rs. Please be more specific.".to_string())
    );
    assert_eq!(
        replacement("aa", "D", "aaaa"),
        Err("Found 2 occurrences of string in a.rs. Please be more specific.".to_string())
    );
    assert_eq!(
        replacement("", "D", "ab"),
        Err("Found 3 occurrences of string in a.rs. Please be more specific.".to_string())
    );
    assert_eq!(replacement("", "D", "").expect("empty file").0, "D");
}

#[test]
fn replacements_are_undone_by_the_opposite_one() {
    let (after, _) = replacement("beta", "unique", "alpha beta gamma").expect("replace");
    let (back, _) = replacement("unique", "beta", &after).expect("replace back");
    assert_eq!(back, "alpha beta gamma");
}

#[test]
fn directory_lists_are_json() {
    let names = vec!["a".to_string(), "b\"c".to_string()];
    assert_eq!(FsTools.list_directory(&names), Ok("[\"a\",\"b\\\"c\"]".to_string()));
    assert_eq!(FsTools.list_directory(&Vec::new()), Ok("[]".to_string()));
}

#[test]
fn reports_name_the_paths() {
    assert_eq!(
        FsTools.write_file(&WriteFileArgs {
            file_path: "x".to_string(),
            content: "y".to_string(),
        }),
        "Successfully wrote to x"
    );
    assert_eq!(
        FsTools.create_directory(&CreateDirectoryArgs {
            dir_path: "d".to_string(),
        }),
        "Successfully created directory d"
    );
}

#[test]
fn only_files_are_deleted() {
    let args = DeleteFileArgs {
        file_path: "f".to_string(),
    };
    assert_eq!(
        FsTools.delete_file(&args, None),
        Err("file does not exist: f".to_string())
    );
    assert_eq!(
        FsTools.delete_file(&args, Some(FileStat { is_dir: true, size: 0 })),
        Err("f is a directory, not a file; delete_file only supports files".to_string())
    );
    assert_eq!(
        FsTools.delete_file(&args, Some(FileStat { is_dir: false, size: 3 })),
        Ok("Successfully deleted f".to_string())
    );
}

#[test]
fn moves_check_both_ends() {
    let args = MoveFileArgs {
        source_path: "s".to_string(),
        destination_path: "d".to_string(),
    };
    assert_eq!(
        FsTools.check_move_source(&args, None),
        Err("source path does not exist: s".to_string())
    );
    assert_eq!(
        FsTools.check_move_source(&args, Some(FileStat { is_dir: true, size: 0 })),
        Err("s is a directory, not a file; move_file only supports files".to_string())
    );
    assert_eq!(
        FsTools.check_move_source(
            &args,
            Some(FileStat { is_dir: false, size: MOVE_FILE_MAX_BYTES + 1 })
        ),
        Err("source file is too large to move (10485761 bytes, limit is 10485760 bytes)".to_string())
    );
    assert_eq!(
        FsTools.check_move_source(
            &args,
            Some(FileStat { is_dir: false, size: MOVE_FILE_MAX_BYTES })
        ),
        Ok(())
    );
    assert_eq!(
        FsTools.check_move_destination(&args, true),
        Err("destination already exists: d".to_string())
    );
    assert_eq!(FsTools.check_move_destination(&args, false), Ok(()));
    assert_eq!(
        FsTools.move_file(&args, None),
        Ok("Successfully moved s to d".to_string())
    );
    assert_eq!(
        FsTools.move_file(&args, Some("busy")),
        Err(
            "move failed: source could not be removed (busy); destination write was rolled back"
                .to_string()
        )
    );
}

fn search(pattern: &str) -> GrepSearchArgs {
    GrepSearchArgs {
        pattern: pattern.to_string(),
        dir_path: None,
    }
}

#[test]
fn search_walks_directories_in_order() {
    assert_eq!(
        FsTools.grep_search(&search("")).err(),
        Some("pattern must not be empty".to_string())
    );
    let mut walk = FsTools.grep_search(&search("hit")).expect("walk");
    let Awaiting::Entries(root) = &walk.awaiting else {
        panic!("expected entries");
    };
    assert_eq!(root, ".");
    walk.take_entries(Some(vec!["./a".to_string(), "./d".to_string(), "./z".to_string()]));
    let mut asked = Vec::new();
    for _ in 0..20 {
        match &walk.awaiting {
            Awaiting::Kind(path) => {
                let path = path.clone();
                asked.push(path.clone());
                walk.take_kind(if path == "./z" { None } else { Some(path == "./d") });
            }
            Awaiting::Entries(path) => {
                assert_eq!(path, "./d");
                walk.take_entries(Some(vec!["./d/b".to_string()]));
            }
            Awaiting::Content(path) => {
                if path == "./a" {
                    walk.take_content(Some("a hit\nmiss"));
                } else {
                    walk.take_content(Some("hit again"));
                }
            }
            Awaiting::Nothing => {}
        }
    }
    assert!(matches!(walk.awaiting, Awaiting::Nothing));
    assert_eq!(asked, ["./a", "./d", "./d/b", "./z"]);
    assert_eq!(FsTools.grep_report(&walk), "./a:1:a hit\n./d/b:1:hit again");
}

#[test]
fn search_stops_at_its_limits() {
    let mut walk = FsTools.grep_search(&search("hit")).expect("walk");
    let names = (0..GREP_MAX_FILES + 5).map(|i| format!("f{i}")).collect::<Vec<_>>();
    walk.take_entries(Some(names));
    let mut visited = 0;
    while let Awaiting::Kind(_) = &walk.awaiting {
        walk.take_kind(Some(false));
        walk.take_content(None);
        visited += 1;
    }
    assert_eq!(visited, GREP_MAX_FILES);
    assert_eq!(FsTools.grep_report(&walk), "No matches found.");

    let mut deep = FsTools.grep_search(&search("hit")).expect("walk");
    let mut depth = 0;
    while let Awaiting::Entries(_) = &deep.awaiting {
        depth += 1;
        deep.take_entries(Some(vec!["down".to_string()]));
        if let Awaiting::Kind(_) = &deep.awaiting {
            deep.take_kind(Some(true));
        }
    }
    assert_eq!(depth, GREP_MAX_DEPTH);
    assert!(matches!(deep.awaiting, Awaiting::Nothing));
}

fn carried_out(files: &mut BTreeMap<String, Vec<u8>>, stuck: bool) -> Result<String, String> {
    let mut task = MoveTask::start(MoveFileArgs {
        source_path: "a".to_string(),
        destination_path: "b".to_string(),
    });
    loop {
        match task.stage {
            MoveStage::SourceStat => task.take_stat(files.get("a").map(|bytes| FileStat {
                is_dir: false,
                size: bytes.len() as u64,
            })),
            MoveStage::DestinationProbe => task.take_probe(files.contains_key("b")),
            MoveStage::SourceBytes => task.take_bytes(files["a"].clone()),
            MoveStage::DestinationWritten => {
                files.insert("b".to_string(), task.content.clone());
                task.take_written();
            }
            MoveStage::SourceRemoved => {
                if stuck {
                    task.take_removal(Some("busy".to_string()));
                } else {
                    files.remove("a");
                    task.take_removal(None);
                }
            }
            MoveStage::DestinationRemoved => {
                files.remove("b");
                task.take_rollback();
            }
            MoveStage::Nothing => return task.finish(),
        }
    }
}

#[test]
fn moves_happen_whole_or_not_at_all() {
    let mut files = BTreeMap::from([("a".to_string(), vec![1, 2, 3])]);
    let before = files.clone();
    assert_eq!(
        carried_out(&mut files, true),
        Err(
            "move failed: source could not be removed (busy); destination write was rolled back"
                .to_string()
        )
    );
    assert_eq!(files, before);
    assert_eq!(
        carried_out(&mut files, false),
        Ok("Successfully moved a to b".to_string())
    );
    assert_eq!(files, BTreeMap::from([("b".to_string(), vec![1, 2, 3])]));
    assert_eq!(
        carried_out(&mut files, false),
        Err("source path does not exist: a".to_string())
    );
    files.insert("a".to_string(), vec![4]);
    assert_eq!(
        carried_out(&mut files, false),
        Err("destination already exists: b".to_string())
    );
}
