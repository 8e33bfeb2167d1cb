use tome::directory::{
    is_tome_script_directory, is_tomeignored, path_in, scan_directory, Scan, ScanEntry,
    ScanRequest,
};
use tome::script::Script;

fn file(name: &str, content: &str) -> ScanEntry {
    ScanEntry::File {
        name: name.to_string(),
        on_disk: content.to_string(),
        content: Ok(content.to_string()),
    }
}

fn dir(name: &str) -> ScanEntry {
    ScanEntry::Directory { name: name.to_string(), has_ignore_file: false }
}

fn reading(request: ScanRequest, expected: &str) -> Scan {
    match request {
        ScanRequest::ReadDirectory { scan, path } => {
            assert_eq!(path, expected);
            scan
        }
        other => panic!("a request for {} was expected, not {:?}", expected, other),
    }
}

fn finished(request: ScanRequest) -> Result<Vec<(String, Script)>, String> {
    match request {
        ScanRequest::Finished(outcome) => outcome,
        other => panic!("the end of the scan was expected, not {:?}", other),
    }
}

fn names(found: &Vec<(String, Script)>) -> Vec<(String, String)> {
    found.iter().map(|(command, script)| (command.clone(), script.path.clone())).collect()
}

fn pair(command: &str, path: &str) -> (String, String) {
    (command.to_string(), path.to_string())
}

#[test]
fn paths_are_joined_with_one_slash() {
    assert_eq!(path_in("/root", "deploy"), "/root/deploy");
    assert_eq!(path_in("/root/", "deploy"), "/root/deploy");
    assert_eq!(path_in("", "deploy"), "deploy");
    assert_eq!(path_in(".", "a/b"), "./a/b");
    assert_eq!(path_in("/", "x"), "/x");
    assert_eq!(path_in("a", ""), "a/");
}

#[test]
fn hidden_directories_are_no_namespaces() {
    assert!(is_tome_script_directory("deploy", false));
    assert!(!is_tome_script_directory(".git", false));
    assert!(!is_tome_script_directory("/root/scripts/.git", false));
    assert!(!is_tome_script_directory("/root/scripts/.git/", false));
    assert!(is_tome_script_directory("/root/.config/deploy", false));
    assert!(is_tome_script_directory("/root/scripts/deploy//", false));
    assert!(is_tome_script_directory("", false));
    assert!(is_tome_script_directory("/", false));
    assert!(!is_tome_script_directory("...", false));
    assert!(!is_tome_script_directory("a/..b", false));
    assert!(!is_tome_script_directory(".a", false));
}

#[test]
fn dots_alone_are_no_names() {
    assert!(is_tome_script_directory("..", false));
    assert!(is_tome_script_directory(".", false));
    assert!(is_tome_script_directory("./", false));
    assert!(is_tome_script_directory("/.", false));
    assert!(is_tome_script_directory("deploy/.", false));
    assert!(is_tome_script_directory("deploy/./", false));
    assert!(is_tome_script_directory("deploy/././/", false));
    assert!(is_tome_script_directory("a/..", false));
    assert!(is_tome_script_directory("a/../", false));
    assert!(is_tome_script_directory("/srv/.git/..", false));
    assert!(!is_tome_script_directory("/srv/.git/.", false));
    assert!(!is_tome_script_directory(".git/./", false));
    assert!(!is_tome_script_directory("..", true));
    assert!(!is_tome_script_directory("deploy/.", true));
}

#[test]
fn names_are_those_of_paths() {
    for dir in ["", "/", ".", "..", "a", ".a", "a/.", "a/..", "a/./", ".a/.", "./.a", "a/b/", "a//.b//",
        "...", "a/...", "/.", "/..", "./.", "../.", ".//", "a/. ", "a/.b/./.", "..a", "a/.\u{e9}"] {
        let name = std::path::Path::new(dir).file_name().unwrap_or_default().to_str().unwrap_or_default();
        assert_eq!(is_tome_script_directory(dir, false), !name.starts_with('.'), "{:?}", dir);
        assert!(!is_tome_script_directory(dir, true), "{:?}", dir);
    }
}

#[test]
fn directories_with_an_ignore_file_are_no_namespaces() {
    assert!(!is_tome_script_directory("deploy", true));
    assert!(!is_tome_script_directory("/root/deploy", true));
    assert!(!is_tome_script_directory(".git", true));
}

#[test]
fn ignore_file_without_patterns_ignores_nothing() {
    assert!(!is_tomeignored("/root", "", "/root/a.sh"));
    assert!(!is_tomeignored("/root", "\n\n", "/root/a.sh"));
    assert!(!is_tomeignored("/root", "   \n\t\n", "/root/a.sh"));
    assert!(!is_tomeignored("/root", "!\n", "/root/a.sh"));
}

#[test]
fn ignore_patterns_match_by_extension() {
    assert!(is_tomeignored("/root", "*.md\n", "/root/README.md"));
    assert!(is_tomeignored("/root", "*.md\n", "/root/docs/guide.md"));
    assert!(!is_tomeignored("/root", "*.md\n", "/root/deploy.sh"));
    assert!(is_tomeignored("/root", "*.md", "/root/README.md"));
    assert!(is_tomeignored("/root", "*.md\r\n*.txt\r\n", "/root/notes.txt"));
}

#[test]
fn ignore_patterns_match_directories() {
    assert!(is_tomeignored("/root", "lib/\n", "/root/lib/include.js"));
    assert!(!is_tomeignored("/root", "lib/\n", "/root/src/include.js"));
    assert!(is_tomeignored("/root", "**/remove-items.js\n", "/root/deep/lib/remove-items.js"));
}

#[test]
fn ignore_patterns_can_be_negated() {
    assert!(!is_tomeignored("/root", "lib/*.js\n!lib/include.js\n", "/root/lib/include.js"));
    assert!(is_tomeignored("/root", "lib/*.js\n!lib/include.js\n", "/root/lib/other.js"));
    assert!(!is_tomeignored("/root", "*.js\n!lib.js\n", "/root/src/lib.js"));
}

#[test]
fn ignore_root_is_taken_without_trailing_slashes() {
    assert!(is_tomeignored("/root/", "*.md\n", "/root/README.md"));
    assert!(is_tomeignored("/root//", "lib/\n", "/root/lib/include.js"));
    assert!(!is_tomeignored("/root/", "*.md\n", "/root/deploy.sh"));
}

#[test]
fn ignore_lines_that_are_no_patterns_are_left_out() {
    assert!(is_tomeignored("/root", "\n*.md\n\n", "/root/README.md"));
    assert!(is_tomeignored("/root", "!\n \t\n! \n*.md\n", "/root/README.md"));
    assert!(is_tomeignored("/root", "[\n*.md\n{a\n", "/root/README.md"));
    assert!(is_tomeignored("/root", "[z-a]\na}\n*.md\n[!]\n[]\n", "/root/README.md"));
    assert!(is_tomeignored("/root", "*.md\nREADME\\\n", "/root/README.md"));
    assert!(!is_tomeignored("/root", "README.md\\\n", "/root/README.md"));
    assert!(!is_tomeignored("/root", "[\n{a\na}\n[z-a]\nx\\\n", "/root/a"));
    assert!(!is_tomeignored("/root", "a\\*\n", "/root/a*"));
}

#[test]
fn ignore_patterns_with_classes_and_braces_are_taken() {
    assert!(is_tomeignored("/r", "[a]", "/r/a"));
    assert!(!is_tomeignored("/r", "[a]", "/r/b"));
    assert!(is_tomeignored("/root", "[RE]*.md\n", "/root/README.md"));
    assert!(!is_tomeignored("/root", "[!R]*.md\n", "/root/README.md"));
    assert!(is_tomeignored("/root", "[!R]*.md\n", "/root/LICENSE.md"));
    assert!(is_tomeignored("/root", "[a-c-e]x\n", "/root/dx"));
    assert!(is_tomeignored("/root", "[]]x\n", "/root/]x"));
    assert!(is_tomeignored("/root", "{README,x}.md\n", "/root/README.md"));
    assert!(is_tomeignored("/root", "{README,x}.md\n", "/root/x.md"));
    assert!(!is_tomeignored("/root", "{README,x}.md\n", "/root/y.md"));
    assert!(is_tomeignored("/root", "{a,{b,c}}.md\n", "/root/c.md"));
    assert!(is_tomeignored("/root", "a\\[b\n", "/root/a[b"));
    assert!(is_tomeignored("/root", "READ\\ME.md\n", "/root/README.md"));
}

#[test]
fn ignore_patterns_at_the_limit_are_taken() {
    let root = format!("/{}", "r".repeat(4095));
    let path = format!("{}/x/y.sh", root);
    for filler in ["*", "?", "/", "!", ",", ".", "\u{e9}", "a*", "*/", "**/", "/**", "x ", "[a-z]", "[!a]",
        "{a,b}", "\\*", "{[a],\\{}", "-", "]"] {
        let pattern: String = filler.chars().cycle().take(4096 / filler.chars().count() * filler.chars().count()).collect();
        let _ = is_tomeignored(&root, &pattern, &path);
    }
    let wide_root = "\u{1F600}".repeat(4096);
    let wide = "\u{10FFFF}".repeat(4096);
    let lines = format!("{}\n!{}/\n{}/\n", wide, wide, wide);
    assert!(is_tomeignored(&wide_root, &lines, &format!("{}/{}/x", wide_root, wide)));
    let deep = format!("{}/{}", root, "y".repeat(4096));
    assert!(is_tomeignored(&root, &"y".repeat(4096), &deep));
    assert!(!is_tomeignored(&root, &"y".repeat(4097), &format!("{}y", deep)));
    assert!(!is_tomeignored(&format!("{}r", root), &"y".repeat(4096), &deep));
}

#[test]
fn ignore_patterns_with_braces_in_braces_are_taken_to_a_depth() {
    let nested = |depth: usize| {
        let mut glob = String::new();
        for _ in 0..depth {
            glob.push_str("x{a,");
        }
        glob.push_str("[ab]*,?");
        for _ in 0..depth {
            glob.push('}');
        }
        glob
    };
    let path = format!("/root/{}bz", "x".repeat(64));
    assert!(is_tomeignored("/root", &nested(64), &path));
    assert!(is_tomeignored("/root", &nested(3), "/root/xxa"));
    assert!(!is_tomeignored("/root", &nested(65), &format!("/root/{}bz", "x".repeat(65))));
    let plain = format!("{}a{}", "{".repeat(64), "}".repeat(64));
    assert!(is_tomeignored("/root", &plain, "/root/a"));
    let braced_root = format!("/{}r{}", "{".repeat(64), "}".repeat(64));
    assert!(is_tomeignored(&braced_root, &nested(64), &format!("/r/{}az", "x".repeat(64))));
}

#[test]
fn ignore_patterns_of_any_make_are_taken() {
    let alphabet: Vec<char> =
        "[]{}\\-!^,*?/.,$()|+ ab\t#~=@:;'\"<>&%\u{e9}\u{1F600}[]{}\\-!*".chars().collect();
    let mut state: u64 = 0x2545_f491_4f6c_dd1d;
    let mut next = |bound: usize| {
        state = state.wrapping_mul(6364136223846793005).wrapping_add(1442695040888963407);
        ((state >> 33) as usize) % bound
    };
    for _ in 0..1500 {
        let mut file = String::new();
        for _ in 0..1 + next(3) {
            for _ in 0..next(9) {
                file.push(alphabet[next(alphabet.len())]);
            }
            file.push('\n');
        }
        let mut path = String::from("/root/");
        for _ in 0..1 + next(8) {
            path.push(alphabet[next(alphabet.len())]);
        }
        let mut root = String::from("/");
        for _ in 0..next(6) {
            root.push(alphabet[next(alphabet.len())]);
        }
        let _ = is_tomeignored("/root", &file, &path);
        let _ = is_tomeignored(&root, &file, &path);
    }
}

#[test]
fn many_ignore_patterns_are_taken() {
    let many: String = (0..10).map(|i| format!("dir{}/\n!dir{}/*.sh\n*.b{}\n", i, i, i)).collect();
    assert!(is_tomeignored("/root", &many, "/root/dir7/x.txt"));
    assert!(is_tomeignored("/root", &many, "/root/a.b9"));
    assert!(!is_tomeignored("/root", &many, "/root/a.sh"));
}

#[test]
fn ignore_file_at_a_root_that_is_no_glob_ignores_nothing() {
    assert!(!is_tomeignored("/ro[ot", "*.md\n", "/ro[ot/README.md"));
    assert!(!is_tomeignored("/ro{ot", "*.md\n", "/ro{ot/README.md"));
    assert!(!is_tomeignored("/root\\", "*.md\n", "/root\\/README.md"));
    assert!(!is_tomeignored("/ro}ot", "*.md\n", "/ro}ot/README.md"));
}

#[test]
fn ignore_root_is_read_as_a_glob() {
    assert!(is_tomeignored("/ro[o]t", "*.md\n", "/root/README.md"));
    assert!(is_tomeignored("/r{oo,x}t", "*.md\n", "/root/README.md"));
    assert!(is_tomeignored("/ro\\ot", "*.md\n", "/root/README.md"));
}

#[test]
fn scan_begins_with_the_root() {
    let scan = reading(scan_directory("/root", vec![]), "/root");
    assert!(scan.work.is_empty());
    assert_eq!(scan.dirs, vec!["/root".to_string()]);
    assert!(scan.commands.is_empty());
    assert!(scan.found.is_empty());
}

#[test]
fn scan_of_an_empty_root_finds_nothing() {
    let scan = reading(scan_directory("/root", vec![]), "/root");
    let found = finished(scan.listed(Ok(vec![]))).unwrap();
    assert!(found.is_empty());
}

#[test]
fn scan_walks_depth_first() {
    let scan = reading(scan_directory("/root", vec![]), "/root");
    let request = scan.listed(Ok(vec![
        file("a.sh", "#!/bin/sh\n# SUMMARY: first\n"),
        dir("deploy"),
        file("z.sh", "# SOURCE\n"),
    ]));
    let scan = reading(request, "/root/deploy");
    assert_eq!(scan.commands, vec!["deploy".to_string()]);
    assert_eq!(names(&scan.found), vec![pair("a.sh", "/root/a.sh")]);
    let request = scan.listed(Ok(vec![dir("eu"), file("staging.sh", "#!/bin/sh\n# COMPLETE\n")]));
    let scan = reading(request, "/root/deploy/eu");
    assert_eq!(scan.commands, vec!["deploy".to_string(), "eu".to_string()]);
    let request = scan.listed(Ok(vec![file("west.sh", "")]));
    let found = finished(request).unwrap();
    assert_eq!(
        names(&found),
        vec![
            pair("a.sh", "/root/a.sh"),
            pair("deploy eu west.sh", "/root/deploy/eu/west.sh"),
            pair("deploy staging.sh", "/root/deploy/staging.sh"),
            pair("z.sh", "/root/z.sh"),
        ]
    );
    assert_eq!(found[0].1.summary_string, "first");
    assert!(found[0].1.display);
    assert!(!found[1].1.display);
    assert!(found[2].1.should_complete);
    assert!(found[3].1.should_source);
    assert_eq!(found[3].1.filetype, "s");
}

#[test]
fn scan_passes_over_what_is_no_namespace() {
    let scan = reading(scan_directory("/root", vec![]), "/root");
    let request = scan.listed(Ok(vec![
        ScanEntry::Directory { name: "deploy".to_string(), has_ignore_file: true },
        dir(".git"),
        file("a.sh", "#!/bin/sh\n"),
    ]));
    let found = finished(request).unwrap();
    assert_eq!(names(&found), vec![pair("a.sh", "/root/a.sh")]);
}

#[test]
fn scan_notes_hidden_files_too() {
    let scan = reading(scan_directory("/root", vec![]), "/root");
    let found = finished(scan.listed(Ok(vec![file(".envrc", "export A=1\n")]))).unwrap();
    assert_eq!(names(&found), vec![pair(".envrc", "/root/.envrc")]);
    assert!(!found[0].1.display);
}

#[test]
fn scan_judges_a_file_by_its_text_and_reads_its_lines() {
    let scan = reading(scan_directory("/root", vec![]), "/root");
    let found = finished(scan.listed(Ok(vec![
        ScanEntry::File {
            name: "half".to_string(),
            on_disk: String::new(),
            content: Ok("#!/usr/bin/env python\n# COMPLETE\n".to_string()),
        },
        ScanEntry::File {
            name: "tool".to_string(),
            on_disk: "#!/usr/bin/env ruby\n# SOURCE\n".to_string(),
            content: Ok("# COMPLETE\n".to_string()),
        },
    ])))
    .unwrap();
    assert!(!found[0].1.display);
    assert!(found[0].1.should_complete);
    assert_eq!(found[0].1.language.name, "text");
    assert!(found[1].1.display);
    assert!(found[1].1.should_complete);
    assert!(!found[1].1.should_source);
    assert_eq!(found[1].1.language.name, "ruby");
}

#[test]
fn scan_puts_the_given_names_first() {
    let scan = reading(scan_directory("scripts/", vec!["tome".to_string(), "x".to_string()]), "scripts/");
    let scan = reading(scan.listed(Ok(vec![dir("d")])), "scripts/d");
    let found = finished(scan.listed(Ok(vec![file("f", "")]))).unwrap();
    assert_eq!(names(&found), vec![pair("tome x d f", "scripts/d/f")]);
}

#[test]
fn scan_ends_with_the_first_failure() {
    let scan = reading(scan_directory("/root", vec![]), "/root");
    let request = scan.listed(Ok(vec![
        file("a.sh", ""),
        ScanEntry::File {
            name: "b.sh".to_string(),
            on_disk: String::new(),
            content: Err("Permission denied".to_string()),
        },
        ScanEntry::File {
            name: "c.sh".to_string(),
            on_disk: String::new(),
            content: Err("other".to_string()),
        },
    ]));
    assert_eq!(finished(request).unwrap_err(), "Permission denied");
    let request = scan_directory("/root", vec![]);
    let scan = reading(request, "/root");
    assert_eq!(finished(scan.listed(Err("Not a directory".to_string()))).unwrap_err(), "Not a directory");
    let scan = reading(scan_directory("/root", vec![]), "/root");
    let scan = reading(scan.listed(Ok(vec![dir("d"), file("a.sh", "")])), "/root/d");
    assert_eq!(finished(scan.listed(Err("gone".to_string()))).unwrap_err(), "gone");
}

#[test]
fn scan_leaves_a_directory_when_it_is_done() {
    let scan = reading(scan_directory("/root", vec![]), "/root");
    let scan = reading(scan.listed(Ok(vec![dir("a"), dir("b")])), "/root/a");
    let scan = reading(scan.listed(Ok(vec![file("x", "")])), "/root/b");
    assert_eq!(scan.commands, vec!["b".to_string()]);
    assert_eq!(scan.dirs, vec!["/root".to_string(), "/root/b".to_string()]);
    let found = finished(scan.listed(Ok(vec![file("y", "")]))).unwrap();
    assert_eq!(names(&found), vec![pair("a x", "/root/a/x"), pair("b y", "/root/b/y")]);
}

#[test]
fn directory_with_ignore_file_is_left_out_of_the_scan() {
    let scan = reading(scan_directory("/root", vec![]), "/root");
    let request = scan.listed(Ok(vec![
        ScanEntry::Directory { name: "deploy".to_string(), has_ignore_file: true },
    ]));
    let found = finished(request).unwrap();
    assert!(found.is_empty());
}
