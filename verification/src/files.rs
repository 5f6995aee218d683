//! Which file to work on: source files among directory entries, the
//! working file of a directory, and the file that a burst of changes points
//! at.

use vstd::prelude::*;
use vstd::string::*;
use crate::text::{after_last, chars_of, copy_range, last_index, push_str, string_from_chars};
use crate::value::strings_view;

verus! {

/// The last part of a path: what follows its last `/`.
pub open spec fn file_name(path: Seq<char>) -> Seq<char> {
    path.skip(last_index(path, '/') + 1)
}

/// The extension of a path: what follows the last `.` of its file name,
/// unless that `.` begins the name or there is none.
pub open spec fn extension(path: Seq<char>) -> Option<Seq<char>> {
    let name = file_name(path);
    let dot = last_index(name, '.');
    if dot <= 0 {
        None
    } else {
        Some(name.skip(dot + 1))
    }
}

/// Whether a path names a source file: its extension is `ua`.
pub open spec fn is_source(path: Seq<char>) -> bool {
    extension(path) == Some(seq!['u', 'a'])
}

/// Whether a path names a source file.
pub fn is_uiua_file(path: &str) -> (yes: bool)
    ensures
        yes == is_source(path@),
{
    let chars = chars_of(path);
    proof {
        assert(chars@.skip(0) == chars@);
    }
    let name_start = after_last(&chars, 0, '/');
    let ext_start = after_last(&chars, name_start, '.');
    let ghost name = file_name(path@);
    if ext_start <= 1 {
        return false;
    }
    let at = name_start + ext_start;
    proof {
        assert(name.skip(ext_start as int) == chars@.skip(at as int));
        assert(forall|i: int| 0 <= i < chars.len() - at ==> chars@.skip(at as int)[i] == chars@[at
            + i]);
    }
    if chars.len() - at == 2 {
        assert(chars@.skip(at as int) =~= seq![chars@[at as int], chars@[at + 1]]);
        chars[at] == 'u' && chars[at + 1] == 'a'
    } else {
        false
    }
}

/// The source files among paths, in their order.
pub open spec fn sources(paths: Seq<Seq<char>>) -> Seq<Seq<char>>
    decreases paths.len(),
{
    if paths.len() == 0 {
        Seq::empty()
    } else if is_source(paths.last()) {
        sources(paths.drop_last()).push(paths.last())
    } else {
        sources(paths.drop_last())
    }
}

/// The source files among the entries of a directory, in their order.
pub fn uiua_files(entries: &Vec<String>) -> (files: Vec<String>)
    ensures
        strings_view(files@) == sources(strings_view(entries@)),
{
    let ghost all = strings_view(entries@);
    let mut files: Vec<String> = Vec::new();
    let mut i: usize = 0;
    while i < entries.len()
        invariant
            i <= entries.len(),
            all == strings_view(entries@),
            strings_view(files@) == sources(all.take(i as int)),
        decreases entries.len() - i,
    {
        proof {
            let longer = all.take(i + 1);
            assert(longer.drop_last() == all.take(i as int));
            assert(longer.last() == entries@[i as int]@);
        }
        if is_uiua_file(entries[i].as_str()) {
            let copy = entries[i].clone();
            proof {
                let before = strings_view(files@);
                assert(strings_view(files@.push(copy)) == before.push(copy@));
            }
            files.push(copy);
        }
        i += 1;
    }
    proof {
        assert(all.take(all.len() as int) == all);
    }
    files
}

/// Why there is no working file.
#[derive(Clone, Copy, Debug, PartialEq, Eq, Structural)]
pub enum NoWorkingFile {
    /// There is no source file.
    NoFile,
    /// There are several and none is the main one.
    MultipleFiles,
}

impl NoWorkingFile {
    /// What to tell the user.
    pub open spec fn message_spec(self) -> Seq<char> {
        match self {
            NoWorkingFile::NoFile =>
                "No .ua file found nearby. Initialize one in the current directory with `uiua init`"@,
            NoWorkingFile::MultipleFiles =>
                "No main.ua file found nearby, and multiple other .ua files found. Please specify which file to run with `uiua run <PATH>`"@,
        }
    }

    /// What to tell the user.
    pub fn message(&self) -> (text: &'static str)
        ensures
            text@ == self.message_spec(),
    {
        match self {
            NoWorkingFile::NoFile =>
                "No .ua file found nearby. Initialize one in the current directory with `uiua init`",
            NoWorkingFile::MultipleFiles =>
                "No main.ua file found nearby, and multiple other .ua files found. Please specify which file to run with `uiua run <PATH>`",
        }
    }
}

/// The working file, decided from what is on disk: `src/main.ua` if it
/// exists, else `main.ua` if it exists, else the one source file among the
/// entries of `.` and `src`; none if there is no such file, and none if
/// there are several.
pub open spec fn working_file(main_in_src: bool, main_here: bool, entries: Seq<Seq<char>>) -> Result<
    Seq<char>,
    NoWorkingFile,
> {
    if main_in_src {
        Ok("src/main.ua"@)
    } else if main_here {
        Ok("main.ua"@)
    } else {
        let found = sources(entries);
        if found.len() == 0 {
            Err(NoWorkingFile::NoFile)
        } else if found.len() == 1 {
            Ok(found[0])
        } else {
            Err(NoWorkingFile::MultipleFiles)
        }
    }
}

/// The working file. `main_in_src` and `main_here` say whether `src/main.ua`
/// and `main.ua` exist; `entries` holds the paths of the entries of `.` and
/// of `src`, in that order.
pub fn working_file_path(main_in_src: bool, main_here: bool, entries: &Vec<String>) -> (path:
    Result<String, NoWorkingFile>)
    ensures
        match path {
            Ok(p) => working_file(main_in_src, main_here, strings_view(entries@)) == Ok::<
                Seq<char>,
                NoWorkingFile,
            >(p@),
            Err(e) => working_file(main_in_src, main_here, strings_view(entries@)) == Err::<
                Seq<char>,
                NoWorkingFile,
            >(e),
        },
{
    if main_in_src {
        return Ok(String::from_str("src/main.ua"));
    }
    if main_here {
        return Ok(String::from_str("main.ua"));
    }
    let mut found = uiua_files(entries);
    if found.len() == 0 {
        Err(NoWorkingFile::NoFile)
    } else if found.len() == 1 {
        let ghost before = strings_view(found@);
        let only = found.pop().unwrap();
        assert(only@ == before[0]);
        Ok(only)
    } else {
        Err(NoWorkingFile::MultipleFiles)
    }
}

/// What the file system reported of some paths.
#[derive(Debug, PartialEq, Eq)]
pub struct FileEvent {
    /// Whether the report is of a modification.
    pub modified: bool,
    /// The paths it is about.
    pub paths: Vec<String>,
}

/// The paths of the reports that are of modifications, in order.
pub open spec fn modified_paths(events: Seq<FileEvent>) -> Seq<Seq<char>>
    decreases events.len(),
{
    if events.len() == 0 {
        Seq::empty()
    } else if events.last().modified {
        modified_paths(events.drop_last()) + strings_view(events.last().paths@)
    } else {
        modified_paths(events.drop_last())
    }
}

/// The file to run after a burst of reports: the last source file that a
/// modification was reported of.
pub open spec fn changed(events: Seq<FileEvent>) -> Option<Seq<char>> {
    let found = sources(modified_paths(events));
    if found.len() == 0 {
        None
    } else {
        Some(found.last())
    }
}

/// The source files of a list that is put together from two are those of
/// the first followed by those of the second.
pub proof fn lemma_sources_concat(a: Seq<Seq<char>>, b: Seq<Seq<char>>)
    ensures
        sources(a + b) == sources(a) + sources(b),
    decreases b.len(),
{
    if b.len() == 0 {
        assert(a + b == a);
        assert(sources(a) + Seq::<Seq<char>>::empty() == sources(a));
    } else {
        assert((a + b).drop_last() == a + b.drop_last());
        assert((a + b).last() == b.last());
        lemma_sources_concat(a, b.drop_last());
        if is_source(b.last()) {
            assert((sources(a) + sources(b.drop_last())).push(b.last()) == sources(a) + sources(
                b.drop_last(),
            ).push(b.last()));
        }
    }
}

/// The file to run after a burst of reports.
pub fn changed_file(events: &Vec<FileEvent>) -> (file: Option<String>)
    ensures
        match file {
            Some(f) => changed(events@) == Some(f@),
            None => changed(events@) is None,
        },
{
    let mut last: Option<String> = None;
    let mut i: usize = 0;
    while i < events.len()
        invariant
            i <= events.len(),
            match last {
                Some(f) => changed(events@.take(i as int)) == Some(f@),
                None => changed(events@.take(i as int)) is None,
            },
        decreases events.len() - i,
    {
        let ghost seen = modified_paths(events@.take(i as int));
        proof {
            let longer = events@.take(i + 1);
            assert(longer.drop_last() == events@.take(i as int));
            assert(longer.last() == events@[i as int]);
        }
        if events[i].modified {
            let found = uiua_files(&events[i].paths);
            proof {
                lemma_sources_concat(seen, strings_view(events@[i as int].paths@));
            }
            if found.len() > 0 {
                last = Some(found[found.len() - 1].clone());
            }
        }
        i += 1;
    }
    proof {
        assert(events@.take(events@.len() as int) == events@);
    }
    last
}

/// The name of the file that holds the settings of the formatter.
pub const CONFIG_FILE: &'static str = "fmt.ua";

/// Where the settings of the formatter are looked for from a directory: in
/// the directory itself, then in the directory that holds it, which is what
/// stands before the last `/` of its path, and so on upward; in each the
/// file `fmt.ua`.
pub open spec fn config_paths_spec(dir: Seq<char>) -> Seq<Seq<char>>
    decreases dir.len(),
{
    let at = last_index(dir, '/');
    seq![dir + "/fmt.ua"@] + if 0 <= at < dir.len() {
        config_paths_spec(dir.take(at))
    } else {
        seq![]
    }
}

/// Where the settings of the formatter are looked for from a directory,
/// nearest first.
pub fn config_paths(dir: &str) -> (paths: Vec<String>)
    ensures
        strings_view(paths@) == config_paths_spec(dir@),
{
    let chars = chars_of(dir);
    let mut paths: Vec<String> = Vec::new();
    let mut end: usize = chars.len();
    let ghost mut done: Seq<Seq<char>> = Seq::empty();
    proof {
        assert(chars@.take(end as int) == dir@);
        assert(strings_view(paths@) =~= done);
        assert(done + config_paths_spec(chars@.take(end as int)) == config_paths_spec(dir@));
    }
    loop
        invariant
            end <= chars.len(),
            chars@ == dir@,
            strings_view(paths@) == done,
            done + config_paths_spec(chars@.take(end as int)) == config_paths_spec(dir@),
        decreases end,
    {
        let ghost here = chars@.take(end as int);
        let mut path = copy_range(&chars, 0, end);
        push_str(&mut path, "/fmt.ua");
        let text = string_from_chars(&path);
        proof {
            assert(chars@.subrange(0, end as int) == here);
            assert(strings_view(paths@.push(text)) =~= done.push(here + "/fmt.ua"@));
        }
        paths.push(text);
        let front = copy_range(&chars, 0, end);
        proof {
            assert(front@.skip(0) == front@);
        }
        let after = after_last(&front, 0, '/');
        if after == 0 {
            proof {
                assert(last_index(here, '/') == -1);
                assert(config_paths_spec(here) == seq![here + "/fmt.ua"@] + Seq::<Seq<char>>::empty());
                assert(done + config_paths_spec(here) =~= done.push(here + "/fmt.ua"@));
            }
            return paths;
        }
        proof {
            let above = here.take(after - 1);
            assert(last_index(here, '/') == after - 1);
            assert(above == chars@.take(after - 1));
            assert(done + config_paths_spec(here) =~= done.push(here + "/fmt.ua"@)
                + config_paths_spec(above));
            done = done.push(here + "/fmt.ua"@);
        }
        end = after - 1;
    }
}

} // verus!
