use std::path::Path;
use uiua::files::{
    changed_file, is_uiua_file, uiua_files, working_file_path, FileEvent, NoWorkingFile,
};

fn strings(items: &[&str]) -> Vec<String> {
    items.iter().map(|s| s.to_string()).collect()
}

#[test]
fn is_uiua_file_agrees_with_the_extension_of_the_path() {
    let cases = [
        "main.ua", "./main.ua", "src/main.ua", "a.b/c.ua", "a.ua/b", "main.UA", "main.ua.txt",
        ".ua", "src/.ua", "..ua", "ua", "x.uaa", "x.u", "x.", "", "dir.ua/", "a/b.c/d", "é.ua",
        "x.y.ua",
    ];
    for p in cases {
        if p.ends_with('/') {
            continue;
        }
        let expected = Path::new(p).extension().is_some_and(|e| e == "ua");
        assert_eq!(is_uiua_file(p), expected, "for {p:?}");
    }
}

#[test]
fn uiua_files_keeps_the_source_files_in_order() {
    let entries = strings(&["./b.ua", "./notes.txt", "./a.ua", "./.ua", "./c.ua.bak"]);
    assert_eq!(uiua_files(&entries), strings(&["./b.ua", "./a.ua"]));
    assert_eq!(uiua_files(&Vec::new()), Vec::<String>::new());
}

#[test]
fn working_file_prefers_main_in_src() {
    let entries = strings(&["./x.ua", "./y.ua"]);
    assert_eq!(working_file_path(true, true, &entries), Ok("src/main.ua".to_string()));
    assert_eq!(working_file_path(true, false, &entries), Ok("src/main.ua".to_string()));
    assert_eq!(working_file_path(false, true, &entries), Ok("main.ua".to_string()));
}

#[test]
fn working_file_falls_back_to_the_only_source_file() {
    assert_eq!(
        working_file_path(false, false, &strings(&["./readme.md", "src/only.ua"])),
        Ok("src/only.ua".to_string())
    );
    assert_eq!(
        working_file_path(false, false, &strings(&["./readme.md"])),
        Err(NoWorkingFile::NoFile)
    );
    assert_eq!(working_file_path(false, false, &Vec::new()), Err(NoWorkingFile::NoFile));
    assert_eq!(
        working_file_path(false, false, &strings(&["./a.ua", "src/b.ua"])),
        Err(NoWorkingFile::MultipleFiles)
    );
}

#[test]
fn no_working_file_messages() {
    assert_eq!(
        NoWorkingFile::NoFile.message(),
        "No .ua file found nearby. Initialize one in the current directory with `uiua init`"
    );
    assert_eq!(
        NoWorkingFile::MultipleFiles.message(),
        "No main.ua file found nearby, and multiple other .ua files found. Please specify which file to run with `uiua run <PATH>`"
    );
}

#[test]
fn changed_file_is_the_last_modified_source_file() {
    let events = vec![
        FileEvent { modified: true, paths: strings(&["./a.ua", "./a.txt"]) },
        FileEvent { modified: false, paths: strings(&["./created.ua"]) },
        FileEvent { modified: true, paths: strings(&["./b.ua", "./c.ua"]) },
        FileEvent { modified: true, paths: strings(&["./d.txt"]) },
    ];
    assert_eq!(changed_file(&events).as_deref(), Some("./c.ua"));
    assert_eq!(changed_file(&events[..2].iter().map(|e| FileEvent { modified: e.modified, paths: e.paths.clone() }).collect()).as_deref(), Some("./a.ua"));
    assert_eq!(changed_file(&Vec::new()), None);
    let none = vec![FileEvent { modified: false, paths: strings(&["./a.ua"]) }];
    assert_eq!(changed_file(&none), None);
}

#[test]
fn the_settings_are_looked_for_upward() {
    assert_eq!(
        uiua::files::config_paths("/home/me/work"),
        vec!["/home/me/work/fmt.ua", "/home/me/fmt.ua", "/home/fmt.ua", "/fmt.ua"]
    );
    assert_eq!(uiua::files::config_paths("work"), vec!["work/fmt.ua"]);
    assert_eq!(uiua::files::config_paths("a/b"), vec!["a/b/fmt.ua", "a/fmt.ua"]);
    assert_eq!(uiua::files::config_paths(""), vec!["/fmt.ua"]);
    assert_eq!(uiua::files::CONFIG_FILE, "fmt.ua");
}
