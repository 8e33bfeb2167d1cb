use tome::commands::builtins::Builtin;
use tome::commands::complete::{
    command_type, complete, completion_output, is_valid_command, script_type_to_string, Listing,
    Load, Offer, PathKind, Request, ScriptType, Walk,
};
use tome::directory::ScanEntry;
use tome::script::{ExecutionBody, Script};
use tome::types::CommandType;

fn strings(items: &[&str]) -> Vec<String> {
    items.iter().map(|s| s.to_string()).collect()
}

fn builtins() -> Vec<Builtin> {
    vec![
        Builtin { name: "help".to_string(), help_text: "print help".to_string() },
        Builtin { name: "commands".to_string(), help_text: "list commands".to_string() },
    ]
}

fn file(name: &str, content: &str) -> ScanEntry {
    ScanEntry::File {
        name: name.to_string(),
        on_disk: content.to_string(),
        content: Ok(content.to_string()),
    }
}

fn dir(name: &str) -> ScanEntry {
    ScanEntry::Directory { name: name.to_string(), has_ignore_file: false }
}

fn is_file(content: &str) -> PathKind {
    PathKind::File { content: content.to_string() }
}

fn probe(request: Request, expected: &str) -> Walk {
    match request {
        Request::Probe { walk, path } => {
            assert_eq!(path, expected);
            walk
        }
        other => panic!("a question about {} was expected, not {:?}", expected, other),
    }
}

fn read_directory(request: Request, expected: &str) -> Offer {
    match request {
        Request::ReadDirectory { offer, path } => {
            assert_eq!(path, expected);
            assert_eq!(offer.target, expected);
            offer
        }
        other => panic!("a listing of {} was expected, not {:?}", expected, other),
    }
}

fn load_script(request: Request, expected: &str) -> Load {
    match request {
        Request::LoadScript { load, path } => {
            assert_eq!(path, expected);
            assert_eq!(load.path, expected);
            load
        }
        other => panic!("a load of {} was expected, not {:?}", expected, other),
    }
}

fn finished(request: Request) -> Result<String, String> {
    match request {
        Request::Finished(outcome) => outcome,
        other => panic!("the end was expected, not {:?}", other),
    }
}

fn listing(entries: Vec<ScanEntry>, ignore_file: &str) -> Option<Listing> {
    Some(Listing { entries, ignore_file: ignore_file.to_string() })
}

#[test]
fn script_types_have_names() {
    assert_eq!(script_type_to_string(ScriptType::Executable), "executable");
    assert_eq!(script_type_to_string(ScriptType::Source), "source");
    assert_eq!(script_type_to_string(ScriptType::Other), "other");
}

#[test]
fn first_line_decides_the_script_type() {
    assert_eq!(command_type("#!/bin/sh\necho\n"), ScriptType::Executable);
    assert_eq!(command_type("#!"), ScriptType::Executable);
    assert_eq!(command_type("# SOURCE\n"), ScriptType::Source);
    assert_eq!(command_type("echo RESOURCES\n"), ScriptType::Source);
    assert_eq!(command_type("#!/bin/sh SOURCE\n"), ScriptType::Executable);
    assert_eq!(command_type("echo\n#!/bin/sh\n"), ScriptType::Other);
    assert_eq!(command_type("echo\n# SOURCE\n"), ScriptType::Other);
    assert_eq!(command_type(" #!/bin/sh\n"), ScriptType::Other);
    assert_eq!(command_type("# source\n"), ScriptType::Other);
    assert_eq!(command_type(""), ScriptType::Other);
}

#[test]
fn empty_lines_are_passed_over_when_sniffing() {
    assert_eq!(command_type("\n\n#!/bin/sh\n"), ScriptType::Executable);
    assert_eq!(command_type("\n# SOURCE"), ScriptType::Source);
    assert_eq!(command_type("\n\n"), ScriptType::Other);
    assert_eq!(command_type("\n \n#!/bin/sh\n"), ScriptType::Other);
}

#[test]
fn valid_commands_are_executable_or_sourced() {
    assert!(is_valid_command("#!/usr/bin/env python\n"));
    assert!(is_valid_command("# SOURCE\n"));
    assert!(!is_valid_command("echo hello\n"));
    assert!(!is_valid_command(""));
}

#[test]
fn builtin_ends_the_completion_at_once() {
    let request = complete("/root", "bash", &strings(&["help"]), &builtins());
    assert_eq!(finished(request), Ok(String::new()));
    let request = complete("/root", "bash", &strings(&["commands", "x"]), &builtins());
    assert_eq!(finished(request), Ok(String::new()));
}

#[test]
fn builtin_counts_only_as_the_first_argument() {
    let request = complete("/root", "bash", &strings(&["deploy", "help"]), &builtins());
    let walk = probe(request, "/root/deploy");
    let walk = probe(walk.probed(PathKind::Directory), "/root/deploy/help");
    let offer = read_directory(walk.probed(PathKind::Missing), "/root/deploy");
    assert!(!offer.at_root);
    let request = complete("/root", "bash", &strings(&["helper"]), &builtins());
    probe(request, "/root/helper");
}

#[test]
fn no_arguments_list_the_root() {
    let request = complete("/root", "bash", &strings(&[]), &builtins());
    let offer = read_directory(request, "/root");
    assert!(offer.at_root);
    assert_eq!(offer.root, "/root");
    assert_eq!(offer.builtins, strings(&["help", "commands"]));
}

#[test]
fn resolving_a_script_with_arguments() {
    let request = complete("", "bash", &strings(&["deploy", "staging.sh", "--dry-run"]), &builtins());
    let walk = probe(request, "deploy");
    assert_eq!(walk.consumed, 0);
    let walk = probe(walk.probed(PathKind::Directory), "deploy/staging.sh");
    assert_eq!(walk.consumed, 1);
    assert_eq!(walk.target, "deploy");
    let content = "#!/bin/sh\n# COMPLETE\n";
    let load = load_script(walk.probed(is_file(content)), "deploy/staging.sh");
    assert_eq!(load.remaining, strings(&["--dry-run"]));
    assert_eq!(load.shell, "bash");
    let script = Script::load(&load.path, content, Ok(content.to_string())).unwrap();
    match script.get_execution_body(CommandType::Execute, &load.shell, &load.remaining) {
        ExecutionBody::Text(text) => assert_eq!(text, "'deploy/staging.sh' '--dry-run'"),
        other => panic!("a command line was expected, not {:?}", other),
    }
    match load.loaded(content, Ok(content.to_string())) {
        Request::Spawn { program, arguments } => {
            assert_eq!(program, "deploy/staging.sh");
            assert_eq!(arguments, strings(&["--complete", "--dry-run"]));
        }
        other => panic!("a program was expected, not {:?}", other),
    }
}

#[test]
fn walk_descends_as_far_as_directories_match() {
    let request = complete("/root", "zsh", &strings(&["a", "b", "c"]), &builtins());
    let walk = probe(request, "/root/a");
    let walk = probe(walk.probed(PathKind::Directory), "/root/a/b");
    let walk = probe(walk.probed(PathKind::Directory), "/root/a/b/c");
    let offer = read_directory(walk.probed(PathKind::Directory), "/root/a/b/c");
    assert!(!offer.at_root);
    assert_eq!(offer.root, "/root");
}

#[test]
fn walk_stops_at_what_does_not_match() {
    let request = complete("/root", "zsh", &strings(&["a", "nope", "c"]), &builtins());
    let walk = probe(request, "/root/a");
    let walk = probe(walk.probed(PathKind::Directory), "/root/a/nope");
    let offer = read_directory(walk.probed(PathKind::Missing), "/root/a");
    assert!(!offer.at_root);
    let request = complete("/root", "zsh", &strings(&["nope"]), &builtins());
    let walk = probe(request, "/root/nope");
    let offer = read_directory(walk.probed(PathKind::Missing), "/root");
    assert!(offer.at_root);
}

#[test]
fn file_that_is_no_command_does_not_match() {
    let request = complete("/root", "zsh", &strings(&["a", "notes.txt", "x"]), &builtins());
    let walk = probe(request, "/root/a");
    let walk = probe(walk.probed(PathKind::Directory), "/root/a/notes.txt");
    let offer = read_directory(walk.probed(is_file("just notes\n")), "/root/a");
    assert!(!offer.at_root);
    let request = complete("/root", "zsh", &strings(&["notes.txt"]), &builtins());
    let walk = probe(request, "/root/notes.txt");
    let offer = read_directory(walk.probed(is_file("")), "/root");
    assert!(offer.at_root);
}

#[test]
fn arguments_behind_a_script_are_left_to_it() {
    let request = complete("/root/", "zsh", &strings(&["run", "a", "b c", ""]), &builtins());
    let walk = probe(request, "/root/run");
    let load = load_script(walk.probed(is_file("# SOURCE\n")), "/root/run");
    assert_eq!(load.remaining, strings(&["a", "b c", ""]));
    let request = complete("/root/", "zsh", &strings(&["run"]), &builtins());
    let walk = probe(request, "/root/run");
    let load = load_script(walk.probed(is_file("#!/bin/sh\n")), "/root/run");
    assert!(load.remaining.is_empty());
}

#[test]
fn walk_with_nothing_left_lists_its_directory() {
    let walk = Walk {
        root: "/root".to_string(),
        shell: "zsh".to_string(),
        args: strings(&["a"]),
        builtins: strings(&["help"]),
        consumed: 1,
        target: "/root/a".to_string(),
    };
    let offer = read_directory(walk.probed(PathKind::Directory), "/root/a");
    assert!(!offer.at_root);
}

#[test]
fn listing_is_sorted_and_joined_with_blanks() {
    let walk = probe(complete("/root", "zsh", &strings(&["d"]), &builtins()), "/root/d");
    let offer = read_directory(walk.probed(PathKind::Directory), "/root/d");
    let entries = vec![
        file("zeta.sh", "#!/bin/sh\n"),
        dir("beta"),
        file("alpha", "# SOURCE\n"),
        file("Gamma.py", "#!/usr/bin/env python\n"),
        dir("10"),
    ];
    assert_eq!(finished(offer.listed(listing(entries, ""))), Ok("10 Gamma.py alpha beta zeta.sh".to_string()));
}

#[test]
fn listing_of_the_root_names_the_builtins() {
    let offer = read_directory(complete("/root", "zsh", &strings(&[]), &builtins()), "/root");
    let entries = vec![file("deploy.sh", "#!/bin/sh\n"), dir("infra")];
    assert_eq!(
        finished(offer.listed(listing(entries, ""))),
        Ok("commands deploy.sh help infra".to_string())
    );
    let offer = read_directory(complete("/root", "zsh", &strings(&[]), &builtins()), "/root");
    assert_eq!(finished(offer.listed(listing(vec![], ""))), Ok("commands help".to_string()));
}

#[test]
fn listing_below_the_root_names_no_builtin() {
    let walk = probe(complete("/root", "zsh", &strings(&["."]), &builtins()), "/root/.");
    let offer = read_directory(walk.probed(PathKind::Directory), "/root/.");
    let entries = vec![file("deploy.sh", "#!/bin/sh\n")];
    assert_eq!(finished(offer.listed(listing(entries, ""))), Ok("deploy.sh".to_string()));
    let walk = probe(complete("/root", "zsh", &strings(&["d"]), &builtins()), "/root/d");
    let offer = read_directory(walk.probed(PathKind::Directory), "/root/d");
    assert_eq!(finished(offer.listed(listing(vec![], ""))), Ok(String::new()));
}

#[test]
fn listing_leaves_out_what_is_no_command() {
    let offer = read_directory(complete("/root", "zsh", &strings(&[]), &vec![]), "/root");
    let entries = vec![
        file("run.sh", "#!/bin/sh\n"),
        file("notes.txt", "remember\n"),
        file(".hidden.sh", "#!/bin/sh\n"),
        ScanEntry::File {
            name: "locked.sh".to_string(),
            on_disk: String::new(),
            content: Err("Permission denied".to_string()),
        },
        ScanEntry::File {
            name: "binary.sh".to_string(),
            on_disk: String::new(),
            content: Ok("#!/bin/sh\n".to_string()),
        },
        dir(".git"),
        ScanEntry::Directory { name: "deploy".to_string(), has_ignore_file: true },
        dir("infra"),
    ];
    assert_eq!(finished(offer.listed(listing(entries, ""))), Ok("infra run.sh".to_string()));
}

#[test]
fn listing_leaves_out_what_is_ignored() {
    let offer = read_directory(complete("/root", "zsh", &strings(&[]), &vec![]), "/root");
    let entries = vec![
        file("run.sh", "#!/bin/sh\n"),
        file("old.bak", "#!/bin/sh\n"),
        dir("vendor"),
        dir("infra"),
    ];
    assert_eq!(
        finished(offer.listed(listing(entries, "*.bak\nvendor\n"))),
        Ok("infra run.sh".to_string())
    );
}

#[test]
fn ignore_file_of_the_root_holds_below_it() {
    let walk = probe(complete("/root", "zsh", &strings(&["d"]), &vec![]), "/root/d");
    let offer = read_directory(walk.probed(PathKind::Directory), "/root/d");
    let entries = vec![file("run.sh", "#!/bin/sh\n"), file("old.bak", "#!/bin/sh\n")];
    assert_eq!(finished(offer.listed(listing(entries, "*.bak\n"))), Ok("run.sh".to_string()));
}

#[test]
fn unreadable_directory_is_an_invalid_argument() {
    let offer = read_directory(complete("/root", "zsh", &strings(&[]), &builtins()), "/root");
    assert_eq!(finished(offer.listed(None)), Err("Invalid argument to completion".to_string()));
}

#[test]
fn script_that_cannot_be_loaded_is_a_failure() {
    let load = Load { shell: "zsh".to_string(), path: "/root/a.sh".to_string(), remaining: vec![] };
    let request = load.loaded("", Err("Os { code: 2, kind: NotFound, message: \"No such file or directory\" }".to_string()));
    assert_eq!(
        finished(request),
        Err("IOError loading file: Os { code: 2, kind: NotFound, message: \"No such file or directory\" }".to_string())
    );
}

#[test]
fn script_without_completion_offers_nothing() {
    let load = Load { shell: "zsh".to_string(), path: "/root/a.sh".to_string(), remaining: strings(&["x"]) };
    let text = "#!/bin/sh\necho\n";
    assert_eq!(finished(load.loaded(text, Ok(text.to_string()))), Ok(String::new()));
}

#[test]
fn sourced_script_is_completed_by_the_shell() {
    let load = Load { shell: "zsh".to_string(), path: "/root/env".to_string(), remaining: strings(&["pro"]) };
    match load.loaded("", Ok("# SOURCE\n# COMPLETE\n".to_string())) {
        Request::Spawn { program, arguments } => {
            assert_eq!(program, "zsh");
            assert_eq!(arguments, strings(&["/root/env", "--complete", "pro"]));
        }
        other => panic!("a program was expected, not {:?}", other),
    }
}

#[test]
fn output_of_the_script_is_the_completion() {
    assert_eq!(completion_output(Ok(b"alpha beta\n".to_vec())), Ok("alpha beta\n".to_string()));
    assert_eq!(completion_output(Ok(vec![])), Ok(String::new()));
    assert_eq!(completion_output(Ok("caf\u{e9}".as_bytes().to_vec())), Ok("caf\u{e9}".to_string()));
}

#[test]
fn output_that_is_no_text_is_a_failure() {
    let outcome = completion_output(Ok(vec![b'a', 0xff, b'b']));
    assert_eq!(
        outcome,
        Err("unable to parse completion results as a utf8 string: invalid utf-8 sequence of 1 bytes from index 1".to_string())
    );
    let outcome = completion_output(Ok(vec![0xe2, 0x98]));
    assert!(outcome.unwrap_err().starts_with("unable to parse completion results as a utf8 string: "));
}

#[test]
fn script_that_cannot_be_run_is_a_failure() {
    assert_eq!(
        completion_output(Err("Permission denied (os error 13)".to_string())),
        Err("completion called failed: Permission denied (os error 13)".to_string())
    );
}
