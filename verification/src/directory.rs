//! Directories: which of them are namespaces, which paths the ignore file of
//! a root leaves out, and the scan that lists every script below a root.

use crate::script::{is_hidden, script_of, Script, ScriptView};
use crate::text::{
    chars_of, code_point, extend, is_whitespace, join, join_all, lemma_trailing_run_bound,
    lemma_view_all_drop_last, lemma_view_all_push, lines_of, slice_of, split_lines, string_of,
    trailing_run, trailing_run_start, view_all, whitespace,
};
use vstd::prelude::*;

verus! {

/// The name of the ignore file: in a root it holds the patterns of what is
/// left out, and a directory that holds one is no namespace.
pub const IGNORE_FILE: &'static str = ".tomeignore";

/// How much of `path` names something: `path` without what stands at its end
/// and names nothing, which is a slash, or a dot alone behind a slash.
pub open spec fn named_len(path: Seq<char>) -> nat
    decreases path.len(),
{
    if path.len() > 0 && path.last() == '/' {
        named_len(path.drop_last())
    } else if path.len() >= 2 && path[path.len() - 1] == '.' && path[path.len() - 2] == '/' {
        named_len(path.take(path.len() - 2))
    } else {
        path.len()
    }
}

/// The name of what is at `path`: its last component, the slashes and the
/// dots alone behind a slash that end the path left aside. A last component
/// that is `.` or `..` is no name: the name is then empty.
pub open spec fn base_name(path: Seq<char>) -> Seq<char> {
    let named = path.take(named_len(path) as int);
    let last = named.skip(named.len() - trailing_run(named, '/', false));
    if last == seq!['.'] || last == seq!['.', '.'] {
        Seq::empty()
    } else {
        last
    }
}

/// Whether the directory at `dir` is a namespace: it is, unless its name
/// begins with a dot or it holds an ignore file.
pub open spec fn is_namespace(dir: Seq<char>, has_ignore_file: bool) -> bool {
    !is_hidden(base_name(dir)) && !has_ignore_file
}

/// Whether the directory at `dir` is offered as a namespace. `has_ignore_file`
/// says whether the directory holds a file named `IGNORE_FILE`.
pub fn is_tome_script_directory(dir: &str, has_ignore_file: bool) -> (offered: bool)
    ensures
        offered == is_namespace(dir@, has_ignore_file),
{
    let path = chars_of(dir);
    let mut end: usize = path.len();
    assert(path@.take(end as int) == path@);
    while end > 0 && (path[end - 1] == '/' || (end >= 2 && path[end - 1] == '.' && path[end - 2]
        == '/'))
        invariant
            end <= path.len(),
            named_len(path@) == named_len(path@.take(end as int)),
        decreases end,
    {
        let ghost front = path@.take(end as int);
        if path[end - 1] == '/' {
            assert(front.drop_last() == path@.take(end - 1));
            end -= 1;
        } else {
            assert(front.take(front.len() - 2) == path@.take(end - 2));
            end -= 2;
        }
    }
    let start = trailing_run_start(&path, end, '/', false);
    proof {
        let named = path@.take(end as int);
        let last = named.skip(start as int);
        assert(last.len() == end - start);
        if end - start == 1 && path@[start as int] == '.' {
            assert(last =~= seq!['.']);
        }
        if end - start == 2 && path@[start as int] == '.' && path@[start + 1] == '.' {
            assert(last =~= seq!['.', '.']);
        }
    }
    let size: usize = end - start;
    let hidden = size > 0 && path[start] == '.' && !(size == 1) && !(size == 2 && path[start + 1]
        == '.');
    !hidden && !has_ignore_file
}

/// The longest root and the longest line of an ignore file that are handed to
/// the pattern matcher. It is the length of the longest path that the system
/// takes. The matcher turns a root and a line into one glob, and panics where
/// the regular expression for a glob outgrows ten mebibytes, which a glob of
/// twice this length does not.
pub const GLOB_LIMIT: usize = 4096;

/// How deep braces can stand in braces in what is handed to the pattern
/// matcher. The matcher panics where the regular expression for a glob holds
/// more than 250 parts one in another, and each level of braces makes three.
pub const BRACE_LIMIT: usize = 64;

/// Where the reading of a glob stands.
#[derive(Clone, Copy, Debug, PartialEq, Eq, Structural)]
pub enum GlobState {
    /// Between the parts of the glob.
    Plain,
    /// Behind a backslash: the next character stands for itself.
    Escaped,
    /// Behind the bracket that opens a class.
    ClassOpened,
    /// Before the first character of a class, which stands for itself.
    ClassFirst,
    /// In a class, behind a character or a range that begins with `low`.
    ClassItem { low: char },
    /// In a class, behind the hyphen of a range that begins with `low`.
    ClassRange { low: char },
    /// The glob is malformed.
    Broken,
}

/// How far a glob is read: in how many braces the reading stands, and where.
#[derive(Clone, Copy, Debug, PartialEq, Eq, Structural)]
pub struct GlobScan {
    pub depth: usize,
    pub state: GlobState,
}

/// The reading of a glob one character on.
///
/// A backslash makes the next character stand for itself. A bracket opens a
/// class, which may begin with `!` or `^`; its first character stands for
/// itself, the next bracket behind that closes it, and a range in it must
/// not end before it begins. Braces must close what was opened, no more, and
/// do not stand deeper than `BRACE_LIMIT`.
pub open spec fn glob_step(scan: GlobScan, c: char) -> GlobScan {
    let broken = GlobScan { depth: scan.depth, state: GlobState::Broken };
    match scan.state {
        GlobState::Broken => broken,
        GlobState::Escaped => GlobScan { state: GlobState::Plain, ..scan },
        GlobState::Plain => if c == '\\' {
            GlobScan { state: GlobState::Escaped, ..scan }
        } else if c == '[' {
            GlobScan { state: GlobState::ClassOpened, ..scan }
        } else if c == '{' {
            if scan.depth < BRACE_LIMIT {
                GlobScan { depth: (scan.depth + 1) as usize, ..scan }
            } else {
                broken
            }
        } else if c == '}' {
            if scan.depth > 0 {
                GlobScan { depth: (scan.depth - 1) as usize, ..scan }
            } else {
                broken
            }
        } else {
            scan
        },
        GlobState::ClassOpened => if c == '!' || c == '^' {
            GlobScan { state: GlobState::ClassFirst, ..scan }
        } else {
            GlobScan { state: GlobState::ClassItem { low: c }, ..scan }
        },
        GlobState::ClassFirst => GlobScan { state: GlobState::ClassItem { low: c }, ..scan },
        GlobState::ClassItem { low } => if c == ']' {
            GlobScan { state: GlobState::Plain, ..scan }
        } else if c == '-' {
            GlobScan { state: GlobState::ClassRange { low }, ..scan }
        } else {
            GlobScan { state: GlobState::ClassItem { low: c }, ..scan }
        },
        GlobState::ClassRange { low } => if c == ']' {
            GlobScan { state: GlobState::Plain, ..scan }
        } else if (c as int) < (low as int) {
            broken
        } else {
            GlobScan { state: GlobState::ClassItem { low }, ..scan }
        },
    }
}

/// The reading of `text` as a glob, from its beginning to its end.
pub open spec fn glob_scan(text: Seq<char>) -> GlobScan
    decreases text.len(),
{
    if text.len() == 0 {
        GlobScan { depth: 0, state: GlobState::Plain }
    } else {
        glob_step(glob_scan(text.drop_last()), text.last())
    }
}

/// Whether `text` is a glob that the matcher can build: read to its end, no
/// escape, no class and no brace is left open, and nothing in it is malformed.
pub open spec fn is_glob(text: Seq<char>) -> bool {
    glob_scan(text) == (GlobScan { depth: 0, state: GlobState::Plain })
}

/// The reading of a glob one character on.
fn step_glob(scan: GlobScan, c: char) -> (next: GlobScan)
    ensures
        next == glob_step(scan, c),
{
    let broken = GlobScan { depth: scan.depth, state: GlobState::Broken };
    match scan.state {
        GlobState::Broken => broken,
        GlobState::Escaped => GlobScan { depth: scan.depth, state: GlobState::Plain },
        GlobState::Plain => {
            if c == '\\' {
                GlobScan { depth: scan.depth, state: GlobState::Escaped }
            } else if c == '[' {
                GlobScan { depth: scan.depth, state: GlobState::ClassOpened }
            } else if c == '{' {
                if scan.depth < BRACE_LIMIT {
                    GlobScan { depth: scan.depth + 1, state: GlobState::Plain }
                } else {
                    broken
                }
            } else if c == '}' {
                if scan.depth > 0 {
                    GlobScan { depth: scan.depth - 1, state: GlobState::Plain }
                } else {
                    broken
                }
            } else {
                scan
            }
        },
        GlobState::ClassOpened => {
            if c == '!' || c == '^' {
                GlobScan { depth: scan.depth, state: GlobState::ClassFirst }
            } else {
                GlobScan { depth: scan.depth, state: GlobState::ClassItem { low: c } }
            }
        },
        GlobState::ClassFirst => GlobScan {
            depth: scan.depth,
            state: GlobState::ClassItem { low: c },
        },
        GlobState::ClassItem { low } => {
            if c == ']' {
                GlobScan { depth: scan.depth, state: GlobState::Plain }
            } else if c == '-' {
                GlobScan { depth: scan.depth, state: GlobState::ClassRange { low } }
            } else {
                GlobScan { depth: scan.depth, state: GlobState::ClassItem { low: c } }
            }
        },
        GlobState::ClassRange { low } => {
            if c == ']' {
                GlobScan { depth: scan.depth, state: GlobState::Plain }
            } else if code_point(c) < code_point(low) {
                broken
            } else {
                GlobScan { depth: scan.depth, state: GlobState::ClassItem { low } }
            }
        },
    }
}

/// Whether `text` is a glob that the matcher can build.
pub fn is_well_formed_glob(text: &Vec<char>) -> (well_formed: bool)
    ensures
        well_formed == is_glob(text@),
{
    let mut scan = GlobScan { depth: 0, state: GlobState::Plain };
    let mut i: usize = 0;
    while i < text.len()
        invariant
            i <= text.len(),
            scan == glob_scan(text@.take(i as int)),
        decreases text.len() - i,
    {
        assert(text@.take(i + 1).drop_last() == text@.take(i as int));
        scan = step_glob(scan, text[i]);
        i += 1;
    }
    assert(text@.take(text.len() as int) == text@);
    scan.depth == 0 && scan.state == GlobState::Plain
}

/// Where the pattern of an ignore line begins: behind the `!` that negates
/// it, if there is one.
pub open spec fn pattern_start(line: Seq<char>) -> int {
    if line.len() > 0 && line[0] == '!' {
        1
    } else {
        0
    }
}

/// `text` without its white space.
pub open spec fn without_whitespace(text: Seq<char>) -> Seq<char>
    decreases text.len(),
{
    if text.len() == 0 {
        Seq::empty()
    } else if is_whitespace(text.last()) {
        without_whitespace(text.drop_last())
    } else {
        without_whitespace(text.drop_last()).push(text.last())
    }
}

/// The glob of an ignore line, as the matcher takes it: the line without the
/// `!` that negates it and without white space.
pub open spec fn pattern_text(line: Seq<char>) -> Seq<char> {
    without_whitespace(line.skip(pattern_start(line)))
}

/// Whether `line` is an ignore pattern that the matcher takes: it is no longer
/// than `GLOB_LIMIT`, and its glob is not empty and is well-formed, also
/// without the `*` that ends it, which the matcher cuts off.
pub open spec fn is_pattern(line: Seq<char>) -> bool {
    let glob = pattern_text(line);
    &&& line.len() <= GLOB_LIMIT
    &&& glob.len() > 0
    &&& is_glob(glob)
    &&& glob.last() == '*' ==> is_glob(glob.drop_last())
}

/// Whether `root` is a root that the matcher takes: it is no longer than
/// `GLOB_LIMIT` and is a well-formed glob, as which the matcher reads it.
pub open spec fn is_root(root: Seq<char>) -> bool {
    root.len() <= GLOB_LIMIT && is_glob(root)
}

/// Whether `line` is an ignore pattern that the matcher takes.
fn check_pattern(line: &Vec<char>) -> (usable: bool)
    ensures
        usable == is_pattern(line@),
{
    if line.len() > GLOB_LIMIT {
        return false;
    }
    let start: usize = if line.len() > 0 && line[0] == '!' {
        1
    } else {
        0
    };
    let mut glob: Vec<char> = Vec::new();
    let mut i: usize = start;
    while i < line.len()
        invariant
            start <= i <= line.len(),
            glob@ == without_whitespace(line@.subrange(start as int, i as int)),
        decreases line.len() - i,
    {
        assert(line@.subrange(start as int, i + 1).drop_last() == line@.subrange(
            start as int,
            i as int,
        ));
        if !whitespace(line[i]) {
            glob.push(line[i]);
        }
        i += 1;
    }
    if glob.len() == 0 || !is_well_formed_glob(&glob) {
        return false;
    }
    if glob[glob.len() - 1] == '*' {
        let cut = slice_of(&glob, 0, glob.len() - 1);
        return is_well_formed_glob(&cut);
    }
    true
}

/// `line` without the line ending that closes it: a line feed, or a carriage
/// return and a line feed.
pub open spec fn without_line_ending(line: Seq<char>) -> Seq<char> {
    if line.len() > 0 && line.last() == '\n' {
        if line.len() > 1 && line[line.len() - 2] == '\r' {
            line.take(line.len() - 2)
        } else {
            line.take(line.len() - 1)
        }
    } else {
        line
    }
}

/// Of the given lines, taken without their line endings, those that are
/// patterns.
pub open spec fn patterns_among(lines: Seq<Seq<char>>) -> Seq<Seq<char>>
    decreases lines.len(),
{
    if lines.len() == 0 {
        Seq::empty()
    } else {
        let line = without_line_ending(lines.last());
        if is_pattern(line) {
            patterns_among(lines.drop_last()).push(line)
        } else {
            patterns_among(lines.drop_last())
        }
    }
}

/// The patterns of an ignore file with the given text: its lines, but for
/// those that the matcher does not take.
pub open spec fn patterns_of(ignore_file: Seq<char>) -> Seq<Seq<char>> {
    patterns_among(lines_of(ignore_file))
}

/// The patterns of an ignore file with the given text.
fn read_patterns(ignore_file: &Vec<char>) -> (patterns: Vec<String>)
    ensures
        view_all(patterns@) == patterns_of(ignore_file@),
        forall|i: int| 0 <= i < patterns.len() ==> is_pattern(#[trigger] patterns[i]@),
{
    let lines = split_lines(ignore_file);
    let mut patterns: Vec<String> = Vec::new();
    let mut i: usize = 0;
    while i < lines.len()
        invariant
            i <= lines.len(),
            view_all(patterns@) == patterns_among(view_all(lines@).take(i as int)),
            forall|k: int| 0 <= k < patterns.len() ==> is_pattern(#[trigger] patterns[k]@),
        decreases lines.len() - i,
    {
        let raw = &lines[i];
        let n = raw.len();
        let end: usize = if n > 0 && raw[n - 1] == '\n' {
            if n > 1 && raw[n - 2] == '\r' {
                n - 2
            } else {
                n - 1
            }
        } else {
            n
        };
        let line = slice_of(raw, 0, end);
        proof {
            let next = view_all(lines@).take(i + 1);
            assert(next.drop_last() == view_all(lines@).take(i as int));
            assert(raw@.take(n as int) == raw@);
        }
        if check_pattern(&line) {
            let pattern = string_of(&line);
            proof {
                lemma_view_all_push(patterns@, pattern);
            }
            patterns.push(pattern);
        }
        i += 1;
    }
    assert(view_all(lines@).take(lines.len() as int) == view_all(lines@));
    patterns
}

/// Whether the patterns `lines`, taken as those of a gitignore file at
/// `root`, leave out the path `target`, as the crate `gitignored` decides it
/// for paths that are parted by slashes, without regard to case.
pub uninterp spec fn gitignore_ignores(
    root: Seq<char>,
    lines: Seq<Seq<char>>,
    target: Seq<char>,
) -> bool;

/// Calls `gitignored::Gitignore::ignores` on a matcher made by
/// `Gitignore::new(root, true, true)`.
///
/// The contract names the result and claims nothing more of it. What it
/// asks of the arguments keeps the call from panicking. The matcher takes
/// the first character of the glob of each line, so there must be one. It
/// builds globs from the root, a slash or `/**/`, the glob of a line with
/// or without the `*` that ends it, and `*` or `**/*`: these are well-formed
/// where the root and the glob of the line are, each read by itself. And it
/// compiles each glob to a regular expression, which the two limits keep
/// within what the matcher allows.
#[verifier::external_body]
fn ignores(root: &str, lines: &Vec<String>, target: &str) -> (ignored: bool)
    requires
        is_root(root@),
        forall|i: int| 0 <= i < lines.len() ==> is_pattern(#[trigger] lines[i]@),
    ensures
        ignored == gitignore_ignores(root@, view_all(lines@), target@),
{
    let lines: Vec<&str> = lines.iter().map(|line| line.as_str()).collect();
    gitignored::Gitignore::new(root, true, true).ignores(&lines, target)
}

/// Whether the ignore file of `root`, whose text is `ignore_file`, leaves out
/// `path`.
///
/// The root is taken without the slashes that end it, and the file without
/// the lines that are no patterns. A file without patterns leaves nothing
/// out, and neither does any file at a root that the matcher does not take.
pub open spec fn tomeignored(root: Seq<char>, ignore_file: Seq<char>, path: Seq<char>) -> bool {
    let base = root.take(root.len() - trailing_run(root, '/', true));
    &&& patterns_of(ignore_file).len() > 0
    &&& is_root(base)
    &&& gitignore_ignores(base, patterns_of(ignore_file), path)
}

/// Whether the ignore file of `root` leaves out `path`. `ignore_file` is the
/// text of the file `IGNORE_FILE` in `root`, empty where there is none.
pub fn is_tomeignored(root: &str, ignore_file: &str, path: &str) -> (ignored: bool)
    ensures
        ignored == tomeignored(root@, ignore_file@, path@),
{
    let patterns = read_patterns(&chars_of(ignore_file));
    if patterns.len() == 0 {
        return false;
    }
    let whole = chars_of(root);
    let end = trailing_run_start(&whole, whole.len(), '/', true);
    let base = slice_of(&whole, 0, end);
    proof {
        assert(whole@.take(whole.len() as int) == whole@);
        lemma_trailing_run_bound(whole@, '/', true);
    }
    if base.len() > GLOB_LIMIT || !is_well_formed_glob(&base) {
        return false;
    }
    ignores(string_of(&base).as_str(), &patterns, path)
}

/// The path of what is called `segment` in the directory `base`: the two with
/// one slash between them, but for a `base` that is empty or ends with a
/// slash, which `segment` follows at once.
pub open spec fn join_path(base: Seq<char>, segment: Seq<char>) -> Seq<char> {
    if base.len() == 0 {
        segment
    } else if base.last() == '/' {
        base + segment
    } else {
        base + seq!['/'] + segment
    }
}

/// The path of what is called `segment` in the directory `base`.
pub fn path_in(base: &str, segment: &str) -> (path: String)
    ensures
        path@ == join_path(base@, segment@),
{
    let mut path = chars_of(base);
    if path.len() > 0 && path[path.len() - 1] != '/' {
        path.push('/');
    }
    extend(&mut path, &chars_of(segment));
    string_of(&path)
}

/// What a text or a failure looks like as a value.
pub open spec fn outcome_view(outcome: Result<String, String>) -> Result<Seq<char>, Seq<char>> {
    match outcome {
        Ok(text) => Ok(text@),
        Err(failure) => Err(failure@),
    }
}

/// One entry of a directory, as the scan needs it.
#[derive(Debug)]
pub enum ScanEntry {
    /// A directory, and whether it holds a file named `IGNORE_FILE`.
    Directory { name: String, has_ignore_file: bool },
    /// Anything else. `on_disk` is its text, empty where it is no text as a
    /// whole. `content` is the lines of it that can be read, or what kept it
    /// from being opened.
    File { name: String, on_disk: String, content: Result<String, String> },
}

/// An entry as a value.
pub enum ScanEntryView {
    Directory { name: Seq<char>, has_ignore_file: bool },
    File { name: Seq<char>, on_disk: Seq<char>, content: Result<Seq<char>, Seq<char>> },
}

impl View for ScanEntry {
    type V = ScanEntryView;

    open spec fn view(&self) -> ScanEntryView {
        match self {
            ScanEntry::Directory { name, has_ignore_file } => ScanEntryView::Directory {
                name: name@,
                has_ignore_file: *has_ignore_file,
            },
            ScanEntry::File { name, on_disk, content } => ScanEntryView::File {
                name: name@,
                on_disk: on_disk@,
                content: outcome_view(*content),
            },
        }
    }
}

/// What a scan has still to do.
#[derive(Debug)]
pub enum Work {
    /// To take up this entry of the innermost directory.
    Visit(ScanEntry),
    /// To leave the innermost directory.
    Leave,
}

/// A piece of work as a value.
pub enum WorkView {
    Visit(ScanEntryView),
    Leave,
}

impl View for Work {
    type V = WorkView;

    open spec fn view(&self) -> WorkView {
        match self {
            Work::Visit(entry) => WorkView::Visit(entry@),
            Work::Leave => WorkView::Leave,
        }
    }
}

/// A scan under way: a walk through the directories below a root, depth
/// first, that notes every file in a namespace as a script.
#[derive(Debug)]
pub struct Scan {
    /// What is still to do; the last is next.
    pub work: Vec<Work>,
    /// The paths of the directories that the scan is in, the innermost last.
    pub dirs: Vec<String>,
    /// The names that lead to the innermost directory.
    pub commands: Vec<String>,
    /// The scripts found so far, each with the name of its command.
    pub found: Vec<(String, Script)>,
}

/// A scan as a value.
pub struct ScanView {
    pub work: Seq<WorkView>,
    pub dirs: Seq<Seq<char>>,
    pub commands: Seq<Seq<char>>,
    pub found: Seq<(Seq<char>, ScriptView)>,
}

impl View for Scan {
    type V = ScanView;

    open spec fn view(&self) -> ScanView {
        ScanView {
            work: view_all(self.work@),
            dirs: view_all(self.dirs@),
            commands: view_all(self.commands@),
            found: view_all(self.found@),
        }
    }
}

/// What a scan asks for, or what it ends with.
#[derive(Debug)]
pub enum ScanRequest {
    /// The entries of the directory at `path` are wanted: `scan` goes on from
    /// them.
    ReadDirectory { scan: Scan, path: String },
    /// The scan is over: the scripts found, each with the name of its
    /// command, or what kept a directory or a file from being read.
    Finished(Result<Vec<(String, Script)>, String>),
}

/// A request as a value.
pub enum ScanRequestView {
    ReadDirectory { scan: ScanView, path: Seq<char> },
    Finished(Result<Seq<(Seq<char>, ScriptView)>, Seq<char>>),
}

impl View for ScanRequest {
    type V = ScanRequestView;

    open spec fn view(&self) -> ScanRequestView {
        match self {
            ScanRequest::ReadDirectory { scan, path } => ScanRequestView::ReadDirectory {
                scan: scan@,
                path: path@,
            },
            ScanRequest::Finished(Ok(found)) => ScanRequestView::Finished(Ok(view_all(found@))),
            ScanRequest::Finished(Err(failure)) => ScanRequestView::Finished(Err(failure@)),
        }
    }
}

/// `list` without its last item, if it has one.
pub open spec fn without_last<T>(list: Seq<T>) -> Seq<T> {
    if list.len() > 0 {
        list.drop_last()
    } else {
        list
    }
}

/// The innermost of `dirs`; the empty path where there is none.
pub open spec fn innermost(dirs: Seq<Seq<char>>) -> Seq<char> {
    if dirs.len() > 0 {
        dirs.last()
    } else {
        Seq::empty()
    }
}

/// The name of the command for what is called `name` where `commands` lead:
/// the names, with one blank between each two.
pub open spec fn command_name(commands: Seq<Seq<char>>, name: Seq<char>) -> Seq<char> {
    join(commands.push(name), " "@)
}

/// What a scan does next: it takes up its work, piece by piece, until it
/// needs the entries of a directory or has no work left.
///
/// A file becomes a script under the name of its command, with its header
/// read from its own text; a file that could not be read ends the scan with
/// that failure. A directory that is a namespace is entered, and its
/// entries asked for; any other is passed over.
pub open spec fn scan_next(scan: ScanView) -> ScanRequestView
    decreases scan.work.len(),
{
    if scan.work.len() == 0 {
        ScanRequestView::Finished(Ok(scan.found))
    } else {
        let rest = ScanView { work: scan.work.drop_last(), ..scan };
        match scan.work.last() {
            WorkView::Leave => scan_next(
                ScanView {
                    dirs: without_last(scan.dirs),
                    commands: without_last(scan.commands),
                    ..rest
                },
            ),
            WorkView::Visit(ScanEntryView::File { name, on_disk, content }) => match content {
                Err(failure) => ScanRequestView::Finished(Err(failure)),
                Ok(text) => scan_next(
                    ScanView {
                        found: scan.found.push(
                            (
                                command_name(scan.commands, name),
                                script_of(join_path(innermost(scan.dirs), name), on_disk, text),
                            ),
                        ),
                        ..rest
                    },
                ),
            },
            WorkView::Visit(ScanEntryView::Directory { name, has_ignore_file }) => {
                let path = join_path(innermost(scan.dirs), name);
                if is_namespace(name, has_ignore_file) {
                    ScanRequestView::ReadDirectory {
                        scan: ScanView {
                            work: rest.work.push(WorkView::Leave),
                            dirs: scan.dirs.push(path),
                            commands: scan.commands.push(name),
                            found: scan.found,
                        },
                        path,
                    }
                } else {
                    scan_next(rest)
                }
            },
        }
    }
}

/// The work of taking up `entries` in their order: the first is the last
/// piece.
pub open spec fn visits(entries: Seq<ScanEntryView>) -> Seq<WorkView> {
    Seq::new(entries.len(), |i: int| WorkView::Visit(entries[entries.len() - 1 - i]))
}

/// What a scan does with the answer to its request: a failure ends it; the
/// entries are taken up in their order, before the work that was left.
pub open spec fn scan_listed(
    scan: ScanView,
    entries: Result<Seq<ScanEntryView>, Seq<char>>,
) -> ScanRequestView {
    match entries {
        Err(failure) => ScanRequestView::Finished(Err(failure)),
        Ok(entries) => scan_next(ScanView { work: scan.work + visits(entries), ..scan }),
    }
}

/// The request that begins a scan of the directory `root`, for commands whose
/// names begin with `previous_commands`.
pub open spec fn scan_begun(root: Seq<char>, previous_commands: Seq<Seq<char>>) -> ScanRequestView {
    ScanRequestView::ReadDirectory {
        scan: ScanView {
            work: Seq::empty(),
            dirs: seq![root],
            commands: previous_commands,
            found: Seq::empty(),
        },
        path: root,
    }
}

/// Begins a scan of the directory `root` for all its scripts. The names of
/// the commands found begin with `previous_commands`.
pub fn scan_directory(root: &str, previous_commands: Vec<String>) -> (request: ScanRequest)
    ensures
        request@ == scan_begun(root@, view_all(previous_commands@)),
{
    let mut dirs: Vec<String> = Vec::new();
    dirs.push(root.to_owned());
    let scan = Scan { work: Vec::new(), dirs, commands: previous_commands, found: Vec::new() };
    proof {
        assert(scan@.work =~= Seq::empty());
        assert(scan@.dirs =~= seq![root@]);
        assert(scan@.found =~= Seq::empty());
    }
    ScanRequest::ReadDirectory { scan, path: root.to_owned() }
}

/// The name of the command for what is called `name` where `commands` lead.
fn name_command(commands: &Vec<String>, name: &str) -> (command: String)
    ensures
        command@ == command_name(view_all(commands@), name@),
{
    let mut parts: Vec<Vec<char>> = Vec::new();
    let mut i: usize = 0;
    while i < commands.len()
        invariant
            i <= commands.len(),
            view_all(parts@) == view_all(commands@).take(i as int),
        decreases commands.len() - i,
    {
        let part = chars_of(commands[i].as_str());
        proof {
            lemma_view_all_push(parts@, part);
        }
        parts.push(part);
        i += 1;
    }
    let last = chars_of(name);
    proof {
        assert(view_all(commands@).take(commands.len() as int) == view_all(commands@));
        lemma_view_all_push(parts@, last);
    }
    parts.push(last);
    string_of(&join_all(&parts, &chars_of(" ")))
}

impl Scan {
    /// Takes up the work of the scan until it needs the entries of a
    /// directory or has no work left.
    pub fn advance(self) -> (request: ScanRequest)
        ensures
            request@ == scan_next(self@),
    {
        let mut scan = self;
        loop
            invariant
                scan_next(self@) == scan_next(scan@),
            decreases scan.work.len(),
        {
            let Scan { mut work, mut dirs, mut commands, mut found } = scan;
            proof {
                if work.len() > 0 {
                    lemma_view_all_drop_last(work@);
                }
            }
            match work.pop() {
                None => {
                    return ScanRequest::Finished(Ok(found));
                },
                Some(Work::Leave) => {
                    proof {
                        if dirs.len() > 0 {
                            assert(view_all(dirs@.drop_last()) =~= view_all(dirs@).drop_last());
                        }
                        if commands.len() > 0 {
                            assert(view_all(commands@.drop_last()) =~= view_all(
                                commands@,
                            ).drop_last());
                        }
                    }
                    dirs.pop();
                    commands.pop();
                },
                Some(Work::Visit(ScanEntry::File { name, on_disk, content })) => {
                    let dir: &str = if dirs.len() > 0 {
                        dirs[dirs.len() - 1].as_str()
                    } else {
                        ""
                    };
                    proof {
                        reveal_strlit("");
                    }
                    let path = path_in(dir, name.as_str());
                    match Script::load(path.as_str(), on_disk.as_str(), content) {
                        Err(failure) => {
                            return ScanRequest::Finished(Err(failure));
                        },
                        Ok(script) => {
                            let command = name_command(&commands, name.as_str());
                            proof {
                                lemma_view_all_push(found@, (command, script));
                            }
                            found.push((command, script));
                        },
                    }
                },
                Some(Work::Visit(ScanEntry::Directory { name, has_ignore_file })) => {
                    if is_tome_script_directory(name.as_str(), has_ignore_file) {
                        let dir: &str = if dirs.len() > 0 {
                            dirs[dirs.len() - 1].as_str()
                        } else {
                            ""
                        };
                        proof {
                            reveal_strlit("");
                        }
                        let path = path_in(dir, name.as_str());
                        proof {
                            lemma_view_all_push(work@, Work::Leave);
                            lemma_view_all_push(dirs@, path);
                            lemma_view_all_push(commands@, name);
                        }
                        work.push(Work::Leave);
                        dirs.push(path.clone());
                        commands.push(name);
                        return ScanRequest::ReadDirectory {
                            scan: Scan { work, dirs, commands, found },
                            path,
                        };
                    }
                },
            }
            scan = Scan { work, dirs, commands, found };
        }
    }

    /// Goes on with the entries of the directory that the scan asked for, or
    /// with what kept them from being read.
    pub fn listed(self, entries: Result<Vec<ScanEntry>, String>) -> (request: ScanRequest)
        ensures
            request@ == scan_listed(
                self@,
                match entries {
                    Ok(entries) => Ok(view_all(entries@)),
                    Err(failure) => Err(failure@),
                },
            ),
    {
        match entries {
            Err(failure) => ScanRequest::Finished(Err(failure)),
            Ok(entries) => {
                let ghost all = view_all(entries@);
                let ghost left = self@.work;
                let Scan { mut work, dirs, commands, found } = self;
                let mut entries = entries;
                while entries.len() > 0
                    invariant
                        entries.len() <= all.len(),
                        view_all(entries@) == all.take(entries.len() as int),
                        view_all(work@) == left + Seq::new(
                            (all.len() - entries.len()) as nat,
                            |i: int| WorkView::Visit(all[all.len() - 1 - i]),
                        ),
                    decreases entries.len(),
                {
                    proof {
                        lemma_view_all_drop_last(entries@);
                    }
                    let entry = entries.pop().unwrap();
                    proof {
                        lemma_view_all_push(work@, Work::Visit(entry));
                    }
                    work.push(Work::Visit(entry));
                }
                Scan { work, dirs, commands, found }.advance()
            },
        }
    }
}

/// A model of what is below a directory: each entry with all that is below
/// it.
pub enum Tree {
    /// A file, with its text and with its lines that can be read, or with
    /// what keeps it from being opened.
    File { name: Seq<char>, on_disk: Seq<char>, content: Result<Seq<char>, Seq<char>> },
    /// A directory, with what is in it or with what keeps it from being read.
    Directory { name: Seq<char>, has_ignore_file: bool, entries: Result<Seq<Tree>, Seq<char>> },
}

/// The entry that stands for `tree` in a listing.
pub open spec fn entry_of(tree: Tree) -> ScanEntryView {
    match tree {
        Tree::File { name, on_disk, content } => ScanEntryView::File { name, on_disk, content },
        Tree::Directory { name, has_ignore_file, .. } => ScanEntryView::Directory {
            name,
            has_ignore_file,
        },
    }
}

/// The listing of a directory that holds `trees`.
pub open spec fn entries_of(trees: Seq<Tree>) -> Seq<ScanEntryView> {
    Seq::new(trees.len(), |i: int| entry_of(trees[i]))
}

/// What reading a directory gives: the listing of what it holds, or the
/// failure.
pub open spec fn listing_of(entries: Result<Seq<Tree>, Seq<char>>) -> Result<
    Seq<ScanEntryView>,
    Seq<char>,
> {
    match entries {
        Ok(trees) => Ok(entries_of(trees)),
        Err(failure) => Err(failure),
    }
}

/// The scripts in `trees`, which the directory `dir` holds and to which
/// `commands` lead, behind those of `found`: every file, in a namespace or in
/// `dir` itself, depth first and in the order of the listings; or the first
/// failure to read a file or a namespace.
pub open spec fn scripts_in(
    trees: Seq<Tree>,
    dir: Seq<char>,
    commands: Seq<Seq<char>>,
    found: Seq<(Seq<char>, ScriptView)>,
) -> Result<Seq<(Seq<char>, ScriptView)>, Seq<char>>
    decreases trees,
{
    if trees.len() == 0 {
        Ok(found)
    } else {
        let rest = trees.subrange(1, trees.len() as int);
        match trees[0] {
            Tree::File { name, on_disk, content: Err(failure) } => Err(failure),
            Tree::File { name, on_disk, content: Ok(text) } => scripts_in(
                rest,
                dir,
                commands,
                found.push(
                    (command_name(commands, name), script_of(join_path(dir, name), on_disk, text)),
                ),
            ),
            Tree::Directory { name, has_ignore_file, entries } => if !is_namespace(
                name,
                has_ignore_file,
            ) {
                scripts_in(rest, dir, commands, found)
            } else {
                match entries {
                    Err(failure) => Err(failure),
                    Ok(below) => match scripts_in(
                        below,
                        join_path(dir, name),
                        commands.push(name),
                        found,
                    ) {
                        Err(failure) => Err(failure),
                        Ok(more) => scripts_in(rest, dir, commands, more),
                    },
                }
            }
        }
    }
}

/// What reading the namespaces in `trees` gives, depth first and in the order
/// of the listings.
pub open spec fn readings_of(trees: Seq<Tree>) -> Seq<Result<Seq<ScanEntryView>, Seq<char>>>
    decreases trees,
{
    if trees.len() == 0 {
        Seq::empty()
    } else {
        let rest = trees.subrange(1, trees.len() as int);
        match trees[0] {
            Tree::Directory { name, has_ignore_file, entries } => if is_namespace(
                name,
                has_ignore_file,
            ) {
                seq![listing_of(entries)] + match entries {
                    Ok(below) => readings_of(below),
                    Err(_) => Seq::empty(),
                } + readings_of(rest)
            } else {
                readings_of(rest)
            },
            _ => readings_of(rest),
        }
    }
}

/// What a scan ends with when its requests are answered by `readings`, one
/// after the other; nothing where it asks for more than these.
pub open spec fn scan_end(
    request: ScanRequestView,
    readings: Seq<Result<Seq<ScanEntryView>, Seq<char>>>,
) -> Option<Result<Seq<(Seq<char>, ScriptView)>, Seq<char>>>
    decreases readings.len(),
{
    match request {
        ScanRequestView::Finished(outcome) => Some(outcome),
        ScanRequestView::ReadDirectory { scan, .. } => if readings.len() == 0 {
            None
        } else {
            scan_end(scan_listed(scan, readings[0]), readings.drop_first())
        },
    }
}

/// The scan `scan` with the entries of `trees` to take up first.
pub open spec fn taking_up(scan: ScanView, trees: Seq<Tree>) -> ScanView {
    ScanView { work: scan.work + visits(entries_of(trees)), ..scan }
}

/// A scan that takes up `trees`, and has what it reads answered as `trees`
/// say, goes on from there with the scripts in `trees` found, or ends with
/// the first failure.
pub proof fn lemma_scan_takes_up(
    scan: ScanView,
    trees: Seq<Tree>,
    readings: Seq<Result<Seq<ScanEntryView>, Seq<char>>>,
)
    ensures
        scan_end(scan_next(taking_up(scan, trees)), readings_of(trees) + readings)
            == match scripts_in(trees, innermost(scan.dirs), scan.commands, scan.found) {
            Ok(found) => scan_end(scan_next(ScanView { found, ..scan }), readings),
            Err(failure) => Some(Err(failure)),
        },
    decreases trees,
{
    if trees.len() > 0 {
        let dir = innermost(scan.dirs);
        let rest = trees.subrange(1, trees.len() as int);
        let start = taking_up(scan, trees);
        let mid = taking_up(scan, rest);
        assert(start.work.drop_last() =~= mid.work);
        match trees[0] {
            Tree::File { name, on_disk, content: Ok(text) } => {
                let script = script_of(join_path(dir, name), on_disk, text);
                let more = scan.found.push((command_name(scan.commands, name), script));
                lemma_scan_takes_up(ScanView { found: more, ..scan }, rest, readings);
            },
            Tree::File { name, on_disk, content: Err(_) } => {},
            Tree::Directory { name, has_ignore_file, entries } => {
                if !is_namespace(name, has_ignore_file) {
                    lemma_scan_takes_up(scan, rest, readings);
                } else {
                    let path = join_path(dir, name);
                    let next = ScanView {
                        work: mid.work.push(WorkView::Leave),
                        dirs: scan.dirs.push(path),
                        commands: scan.commands.push(name),
                        found: scan.found,
                    };
                    let all = readings_of(trees) + readings;
                    assert(scan_end(scan_next(start), all) == scan_end(
                        scan_listed(next, all[0]),
                        all.drop_first(),
                    ));
                    match entries {
                        Ok(below) => {
                            let after = readings_of(rest) + readings;
                            assert(all.drop_first() =~= readings_of(below) + after);
                            lemma_scan_takes_up(next, below, after);
                            match scripts_in(below, path, next.commands, scan.found) {
                                Ok(more) => {
                                    let left = ScanView { found: more, ..next };
                                    assert(left.work.drop_last() =~= mid.work);
                                    assert(without_last(left.dirs) =~= scan.dirs);
                                    assert(without_last(left.commands) =~= scan.commands);
                                    lemma_scan_takes_up(
                                        ScanView { found: more, ..scan },
                                        rest,
                                        readings,
                                    );
                                },
                                Err(_) => {},
                            }
                        },
                        Err(_) => {},
                    }
                }
            },
        }
    }
}

/// A scan of a root finds the scripts below it: where every directory that
/// the scan asks for is read as `entries` say, in the order in which it asks,
/// the scan ends with every file in a namespace below the root or in the root
/// itself, depth first and in the order of the listings, or with the first
/// failure to read a file or a directory.
pub proof fn lemma_scan_finds_all(
    root: Seq<char>,
    previous_commands: Seq<Seq<char>>,
    entries: Result<Seq<Tree>, Seq<char>>,
)
    ensures
        scan_end(
            scan_begun(root, previous_commands),
            seq![listing_of(entries)] + match entries {
                Ok(trees) => readings_of(trees),
                Err(_) => Seq::empty(),
            },
        ) == Some(
            match entries {
                Ok(trees) => scripts_in(trees, root, previous_commands, Seq::empty()),
                Err(failure) => Err(failure),
            },
        ),
{
    let scan = ScanView {
        work: Seq::empty(),
        dirs: seq![root],
        commands: previous_commands,
        found: Seq::empty(),
    };
    let none = Seq::<Result<Seq<ScanEntryView>, Seq<char>>>::empty();
    let begun = scan_begun(root, previous_commands);
    match entries {
        Ok(trees) => {
            let all = seq![listing_of(entries)] + readings_of(trees);
            assert(all.drop_first() =~= readings_of(trees) + none);
            lemma_scan_takes_up(scan, trees, none);
        },
        Err(_) => {
            let all = seq![listing_of(entries)] + none;
            assert(scan_end(begun, all) == scan_end(scan_listed(scan, all[0]), all.drop_first()));
        },
    }
}

} // verus!
