//! Scripts: the languages they are written in, the header that describes
//! them, and the command line that runs them.

use crate::commands::complete::{displayable, is_valid_command};
use crate::text::{
    chars_of, contains, ends_with, extend, first_line, first_line_len, has_substring, join,
    join_all, leading_repeats, lemma_first_line_len, lemma_join_front, lemma_replace_absent,
    lemma_view_all_push, line_end, lines_of, replace_char, replace_each, skip_repeats,
    skip_whitespace, slice_of, starts_with, string_of, trim_start, view_all, without_line_feed,
};
use crate::types::CommandType;
use vstd::prelude::*;

verus! {

/// Whether `name` begins with a dot.
pub open spec fn is_hidden(name: Seq<char>) -> bool {
    name.len() > 0 && name[0] == '.'
}

/// Whether a file of this name can be a script: hidden files cannot.
pub fn is_tome_script(filename: &str) -> (eligible: bool)
    ensures
        eligible == !is_hidden(filename@),
{
    let name = chars_of(filename);
    !(name.len() > 0 && name[0] == '.')
}

/// The languages that scripts are written in.
#[derive(Clone, Copy, Debug, PartialEq, Eq, Structural)]
pub enum LanguageType {
    Python,
    Shell,
    Ruby,
    Javascript,
    Typescript,
    Text,
}

/// What the dispatcher knows of a language.
#[derive(Clone, Copy, Debug)]
pub struct Language {
    /// The ending of the names of files in this language.
    pub extension: &'static str,
    /// The name of the language, as it stands in a shebang line.
    pub name: &'static str,
    pub language: LanguageType,
    /// What begins a comment.
    pub comment_character: &'static str,
}

/// The known languages, in the order in which they are tried.
pub open spec fn language_table() -> Seq<Language> {
    seq![
        Language {
            extension: "bash",
            name: "bash",
            language: LanguageType::Shell,
            comment_character: "#",
        },
        Language {
            extension: "sh",
            name: "sh",
            language: LanguageType::Shell,
            comment_character: "#",
        },
        Language {
            extension: "py",
            name: "python",
            language: LanguageType::Python,
            comment_character: "#",
        },
        Language {
            extension: "ts",
            name: "typescript",
            language: LanguageType::Typescript,
            comment_character: "//",
        },
        Language {
            extension: "js",
            name: "javascript",
            language: LanguageType::Javascript,
            comment_character: "//",
        },
        Language {
            extension: "rb",
            name: "ruby",
            language: LanguageType::Ruby,
            comment_character: "#",
        },
    ]
}

/// The language of a script that matches no known language.
pub open spec fn text_language() -> Language {
    Language { extension: "", name: "text", language: LanguageType::Text, comment_character: "#" }
}

/// Whether `path` ends with the extension of `language`.
pub open spec fn has_extension(path: Seq<char>, language: Language) -> bool {
    language.extension@.is_suffix_of(path)
}

/// Whether the name of `language` occurs in `line`.
pub open spec fn names(line: Seq<char>, language: Language) -> bool {
    contains(line, language.name@)
}

/// The first language of the table, from index `from` on, whose extension
/// `path` ends with.
pub open spec fn first_by_extension(path: Seq<char>, from: int) -> Option<Language>
    decreases language_table().len() - from,
{
    if from < 0 || from >= language_table().len() {
        None
    } else if has_extension(path, language_table()[from]) {
        Some(language_table()[from])
    } else {
        first_by_extension(path, from + 1)
    }
}

/// The first language of the table, from index `from` on, whose name occurs
/// in `line`.
pub open spec fn first_by_name(line: Seq<char>, from: int) -> Option<Language>
    decreases language_table().len() - from,
{
    if from < 0 || from >= language_table().len() {
        None
    } else if names(line, language_table()[from]) {
        Some(language_table()[from])
    } else {
        first_by_name(line, from + 1)
    }
}

/// The first language whose extension `path` ends with.
pub open spec fn language_by_extension(path: Seq<char>) -> Option<Language> {
    first_by_extension(path, 0)
}

/// The first language whose name occurs in `line`.
pub open spec fn language_by_shebang(line: Seq<char>) -> Option<Language> {
    first_by_name(line, 0)
}

/// The language of the script at `path` whose file holds `on_disk`: by the
/// extension; failing that, by the first line of the file; failing that, text.
pub open spec fn language_of(path: Seq<char>, on_disk: Seq<char>) -> Language {
    match language_by_extension(path) {
        Some(language) => language,
        None => match language_by_shebang(without_line_feed(first_line(on_disk))) {
            Some(language) => language,
            None => text_language(),
        },
    }
}

/// The known languages, in the order in which they are tried.
pub fn languages() -> (table: Vec<Language>)
    ensures
        table@ == language_table(),
{
    let table = vec![
        Language {
            extension: "bash",
            name: "bash",
            language: LanguageType::Shell,
            comment_character: "#",
        },
        Language {
            extension: "sh",
            name: "sh",
            language: LanguageType::Shell,
            comment_character: "#",
        },
        Language {
            extension: "py",
            name: "python",
            language: LanguageType::Python,
            comment_character: "#",
        },
        Language {
            extension: "ts",
            name: "typescript",
            language: LanguageType::Typescript,
            comment_character: "//",
        },
        Language {
            extension: "js",
            name: "javascript",
            language: LanguageType::Javascript,
            comment_character: "//",
        },
        Language {
            extension: "rb",
            name: "ruby",
            language: LanguageType::Ruby,
            comment_character: "#",
        },
    ];
    table
}

/// The language of a script that matches no known language.
pub fn fallback_language() -> (language: Language)
    ensures
        language == text_language(),
{
    Language { extension: "", name: "text", language: LanguageType::Text, comment_character: "#" }
}

/// The first language whose name occurs in `line`.
fn language_named_in(line: &Vec<char>) -> (found: Option<Language>)
    ensures
        found == language_by_shebang(line@),
{
    let table = languages();
    let mut i: usize = 0;
    while i < table.len()
        invariant
            i <= table.len(),
            table@ == language_table(),
            language_by_shebang(line@) == first_by_name(line@, i as int),
        decreases table.len() - i,
    {
        let language = table[i];
        if has_substring(line, &chars_of(language.name)) {
            return Some(language);
        }
        i += 1;
    }
    None
}

/// Where the header of a script is being read.
#[derive(Clone, Copy, Debug, PartialEq, Eq, Structural)]
pub enum ScanState {
    /// Directives are looked for.
    Scanning,
    /// A help text is being taken, up to the directive that ends it.
    CapturingHelp,
}

/// What a line begins with that names the program to run a script with.
pub const SHEBANG: &'static str = "#!";

/// The directive that says that a script supports completion.
pub const COMPLETE: &'static str = "COMPLETE";

/// The directive that says that a script is to be sourced.
pub const SOURCE: &'static str = "SOURCE";

/// The directive behind which a help text begins.
pub const START_HELP: &'static str = "START HELP";

/// The directive before which a help text ends.
pub const END_HELP: &'static str = "END HELP";

/// The directive that gives the summary of a script.
pub const SUMMARY: &'static str = "SUMMARY";

/// How far into a directive line its summary begins: behind the keyword, the
/// colon and one more character.
pub const SUMMARY_OFFSET: usize = 9;

/// What the header of a script says, and the state of reading it.
pub struct Header {
    pub should_source: bool,
    pub should_complete: bool,
    pub summary: Seq<char>,
    pub help: Seq<char>,
    pub state: ScanState,
}

/// What one line does to the header.
pub enum LineEffect {
    /// The header ends before this line.
    Stop,
    /// The line is passed over.
    Skip,
    /// The script supports completion.
    Complete,
    /// The script is to be sourced.
    Source,
    /// A help text begins behind this line.
    StartHelp,
    /// The help text ended before this line.
    EndHelp,
    /// The help text goes on with this.
    Help(Seq<char>),
    /// The summary goes on with this.
    Summary(Seq<char>),
}

/// What a comment line says: the line without its comment prefix, however
/// often that is repeated, and without the white space that follows.
pub open spec fn directive_text(comment: Seq<char>, line: Seq<char>) -> Seq<char> {
    trim_start(line.skip(leading_repeats(line, comment) as int))
}

/// The summary that a `SUMMARY` directive gives: what stands behind
/// `SUMMARY_OFFSET` characters, up to the line feed.
pub open spec fn summary_text(directive: Seq<char>) -> Seq<char> {
    let said = without_line_feed(directive);
    if said.len() >= SUMMARY_OFFSET {
        said.skip(SUMMARY_OFFSET as int)
    } else {
        Seq::empty()
    }
}

/// What the line `line` does to a header in state `state`, where comments
/// begin with `comment`.
///
/// A comment line is read as a directive. While a help text is taken, every
/// comment line but `END HELP` belongs to it. A line that is no directive
/// ends the header, unless it begins with `#!`.
pub open spec fn line_effect(comment: Seq<char>, state: ScanState, line: Seq<char>) -> LineEffect {
    let said = directive_text(comment, line);
    if !comment.is_prefix_of(line) {
        if SHEBANG@.is_prefix_of(line) {
            LineEffect::Skip
        } else {
            LineEffect::Stop
        }
    } else if state == ScanState::CapturingHelp {
        if END_HELP@.is_prefix_of(said) {
            LineEffect::EndHelp
        } else {
            LineEffect::Help(said)
        }
    } else if COMPLETE@.is_prefix_of(said) {
        LineEffect::Complete
    } else if SOURCE@.is_prefix_of(said) {
        LineEffect::Source
    } else if START_HELP@.is_prefix_of(said) {
        LineEffect::StartHelp
    } else if SUMMARY@.is_prefix_of(said) {
        LineEffect::Summary(summary_text(said))
    } else if SHEBANG@.is_prefix_of(line) {
        LineEffect::Skip
    } else {
        LineEffect::Stop
    }
}

/// The header after a line with the given effect.
pub open spec fn apply_effect(header: Header, effect: LineEffect) -> Header {
    match effect {
        LineEffect::Stop | LineEffect::Skip => header,
        LineEffect::Complete => Header { should_complete: true, ..header },
        LineEffect::Source => Header { should_source: true, ..header },
        LineEffect::StartHelp => Header { state: ScanState::CapturingHelp, ..header },
        LineEffect::EndHelp => Header { state: ScanState::Scanning, ..header },
        LineEffect::Help(text) => Header { help: header.help + text, ..header },
        LineEffect::Summary(text) => Header { summary: header.summary + text, ..header },
    }
}

/// The header after the given lines, up to the first that ends it.
pub open spec fn scan_lines(comment: Seq<char>, lines: Seq<Seq<char>>, header: Header) -> Header
    decreases lines.len(),
{
    if lines.len() == 0 {
        header
    } else {
        let effect = line_effect(comment, header.state, lines[0]);
        if effect is Stop {
            header
        } else {
            scan_lines(comment, lines.drop_first(), apply_effect(header, effect))
        }
    }
}

/// The header of a script that says nothing.
pub open spec fn empty_header() -> Header {
    Header {
        should_source: false,
        should_complete: false,
        summary: Seq::empty(),
        help: Seq::empty(),
        state: ScanState::Scanning,
    }
}

/// What the leading comment block of `body` says, where comments begin with
/// `comment`.
pub open spec fn header_of(comment: Seq<char>, body: Seq<char>) -> Header {
    scan_lines(comment, lines_of(body), empty_header())
}

/// What stands behind a line that ends the header is not read: the lines of
/// `front`, then `line`, which ends the header where `front` has not, and then
/// `rest` say what `front` says.
pub proof fn lemma_header_ends(
    comment: Seq<char>,
    front: Seq<Seq<char>>,
    line: Seq<char>,
    rest: Seq<Seq<char>>,
    header: Header,
)
    requires
        line_effect(comment, scan_lines(comment, front, header).state, line) is Stop,
    ensures
        scan_lines(comment, front.push(line) + rest, header) == scan_lines(comment, front, header),
    decreases front.len(),
{
    let lines = front.push(line) + rest;
    if front.len() > 0 {
        let effect = line_effect(comment, header.state, front[0]);
        assert(lines[0] == front[0]);
        if !(effect is Stop) {
            assert(lines.drop_first() =~= front.drop_first().push(line) + rest);
            let next = apply_effect(header, effect);
            lemma_header_ends(comment, front.drop_first(), line, rest, next);
        }
    } else {
        assert(lines[0] == line);
    }
}

/// Whether `line` is a directive that a header takes outside a help text: a
/// comment line that begins, behind its comment prefix, with `COMPLETE`,
/// `SOURCE`, `START HELP` or `SUMMARY`.
pub open spec fn is_directive(comment: Seq<char>, line: Seq<char>) -> bool {
    let said = directive_text(comment, line);
    &&& comment.is_prefix_of(line)
    &&& {
        ||| COMPLETE@.is_prefix_of(said)
        ||| SOURCE@.is_prefix_of(said)
        ||| START_HELP@.is_prefix_of(said)
        ||| SUMMARY@.is_prefix_of(said)
    }
}

/// Lines of which none is a directive leave a header that says nothing as it
/// is.
pub proof fn lemma_scan_without_directives(comment: Seq<char>, lines: Seq<Seq<char>>)
    requires
        forall|i: int| 0 <= i < lines.len() ==> !is_directive(comment, #[trigger] lines[i]),
    ensures
        scan_lines(comment, lines, empty_header()) == empty_header(),
    decreases lines.len(),
{
    if lines.len() > 0 {
        lemma_scan_without_directives(comment, lines.drop_first());
    }
}

/// The header while it is read.
struct HeaderScan {
    should_source: bool,
    should_complete: bool,
    summary: Vec<char>,
    help: Vec<char>,
    state: ScanState,
}

impl View for HeaderScan {
    type V = Header;

    closed spec fn view(&self) -> Header {
        Header {
            should_source: self.should_source,
            should_complete: self.should_complete,
            summary: self.summary@,
            help: self.help@,
            state: self.state,
        }
    }
}

/// The summary that a `SUMMARY` directive gives.
fn summary_of(directive: &Vec<char>) -> (summary: Vec<char>)
    ensures
        summary@ == summary_text(directive@),
{
    let end: usize = if directive.len() > 0 && directive[directive.len() - 1] == '\n' {
        directive.len() - 1
    } else {
        directive.len()
    };
    if end >= SUMMARY_OFFSET {
        let summary = slice_of(directive, SUMMARY_OFFSET, end);
        summary
    } else {
        Vec::new()
    }
}

/// Reads one line into the header. Returns the header behind the line, and
/// whether the header goes on.
fn read_line(comment: &Vec<char>, line: &Vec<char>, header: HeaderScan) -> (next: (
    HeaderScan,
    bool,
))
    ensures
        next.1 == !(line_effect(comment@, header@.state, line@) is Stop),
        next.0@ == apply_effect(header@, line_effect(comment@, header@.state, line@)),
{
    let shebang = starts_with(line, &chars_of(SHEBANG));
    if !starts_with(line, comment) {
        return (header, shebang);
    }
    let behind = skip_repeats(line, comment, 0);
    let from = skip_whitespace(line, behind);
    let said = slice_of(line, from, line.len());
    proof {
        assert(line@.skip(0) == line@);
        assert(line@.skip(behind as int).skip(from - behind) == line@.skip(from as int));
    }
    let mut header = header;
    match header.state {
        ScanState::CapturingHelp => {
            if starts_with(&said, &chars_of(END_HELP)) {
                header.state = ScanState::Scanning;
            } else {
                extend(&mut header.help, &said);
            }
            (header, true)
        },
        ScanState::Scanning => {
            if starts_with(&said, &chars_of(COMPLETE)) {
                header.should_complete = true;
                (header, true)
            } else if starts_with(&said, &chars_of(SOURCE)) {
                header.should_source = true;
                (header, true)
            } else if starts_with(&said, &chars_of(START_HELP)) {
                header.state = ScanState::CapturingHelp;
                (header, true)
            } else if starts_with(&said, &chars_of(SUMMARY)) {
                let summary = summary_of(&said);
                extend(&mut header.summary, &summary);
                (header, true)
            } else {
                (header, shebang)
            }
        },
    }
}

/// Reads the header of a script with the given text.
fn read_header(comment: &Vec<char>, body: &Vec<char>) -> (header: HeaderScan)
    ensures
        header@ == header_of(comment@, body@),
{
    let mut header = HeaderScan {
        should_source: false,
        should_complete: false,
        summary: Vec::new(),
        help: Vec::new(),
        state: ScanState::Scanning,
    };
    let mut from: usize = 0;
    assert(body@.skip(0) == body@);
    while from < body.len()
        invariant
            from <= body.len(),
            header_of(comment@, body@) == scan_lines(
                comment@,
                lines_of(body@.skip(from as int)),
                header@,
            ),
        decreases body.len() - from,
    {
        let end = line_end(body, from);
        let line = slice_of(body, from, end);
        proof {
            let tail = body@.skip(from as int);
            lemma_first_line_len(tail);
            assert(first_line(tail) == line@);
            assert(tail.skip(first_line_len(tail) as int) == body@.skip(end as int));
            assert(lines_of(tail).drop_first() == lines_of(body@.skip(end as int)));
        }
        let (next, go_on) = read_line(comment, &line, header);
        header = next;
        if !go_on {
            return header;
        }
        from = end;
    }
    header
}

/// A script, as its file describes it.
///
/// Any file can be a script; comments at its head say more of it.
#[derive(Debug)]
pub struct Script {
    /// What is printed when help is asked for.
    pub help_string: String,
    /// Where the script is.
    pub path: String,
    /// Whether the script is read into the calling shell, not run.
    pub should_source: bool,
    /// Whether the script can be asked for completion candidates.
    pub should_complete: bool,
    /// One line on what the script does.
    pub summary_string: String,
    /// The language of the script.
    pub language: Language,
    /// Whether the file counts as a command.
    pub display: bool,
    /// `s` for a script that is sourced, `x` for one that is run.
    pub filetype: &'static str,
}

/// A script as a value.
pub struct ScriptView {
    pub help: Seq<char>,
    pub path: Seq<char>,
    pub should_source: bool,
    pub should_complete: bool,
    pub summary: Seq<char>,
    pub language: Language,
    pub display: bool,
    pub filetype: Seq<char>,
}

impl View for Script {
    type V = ScriptView;

    open spec fn view(&self) -> ScriptView {
        ScriptView {
            help: self.help_string@,
            path: self.path@,
            should_source: self.should_source,
            should_complete: self.should_complete,
            summary: self.summary_string@,
            language: self.language,
            display: self.display,
            filetype: self.filetype@,
        }
    }
}

/// The tag of a script: `s` where it is sourced, else `x`.
pub open spec fn kind_tag(should_source: bool) -> Seq<char> {
    if should_source {
        "s"@
    } else {
        "x"@
    }
}

/// The script at `path` whose file holds `on_disk`, with its header read
/// from `body`.
pub open spec fn script_of(path: Seq<char>, on_disk: Seq<char>, body: Seq<char>) -> ScriptView {
    let language = language_of(path, on_disk);
    let header = header_of(language.comment_character@, body);
    ScriptView {
        help: header.help,
        path,
        should_source: header.should_source,
        should_complete: header.should_complete,
        summary: header.summary,
        language,
        display: displayable(on_disk),
        filetype: kind_tag(header.should_source),
    }
}

/// A body of which no line is a directive gives a script that is run, not
/// sourced, that supports no completion, and that has no summary and no help.
pub proof fn lemma_script_without_directives(
    path: Seq<char>,
    on_disk: Seq<char>,
    body: Seq<char>,
)
    requires
        forall|i: int|
            0 <= i < lines_of(body).len() ==> !is_directive(
                language_of(path, on_disk).comment_character@,
                #[trigger] lines_of(body)[i],
            ),
    ensures
        !script_of(path, on_disk, body).should_source,
        !script_of(path, on_disk, body).should_complete,
        script_of(path, on_disk, body).summary == Seq::<char>::empty(),
        script_of(path, on_disk, body).help == Seq::<char>::empty(),
        script_of(path, on_disk, body).filetype == "x"@,
{
    lemma_scan_without_directives(language_of(path, on_disk).comment_character@, lines_of(body));
}

/// What a script is called with, before its arguments, to be asked for
/// completion candidates.
pub const COMPLETE_FLAG: &'static str = "--complete";

/// What is to be done to have the text that was asked for.
#[derive(Debug)]
pub enum ExecutionBody {
    /// The text is this.
    Text(String),
    /// The text is what this program prints when it is run with these
    /// arguments.
    Spawn { program: String, arguments: Vec<String> },
}

/// An execution body as a value.
pub enum ExecutionBodyView {
    Text(Seq<char>),
    Spawn { program: Seq<char>, arguments: Seq<Seq<char>> },
}

impl View for ExecutionBody {
    type V = ExecutionBodyView;

    open spec fn view(&self) -> ExecutionBodyView {
        match self {
            ExecutionBody::Text(text) => ExecutionBodyView::Text(text@),
            ExecutionBody::Spawn { program, arguments } => ExecutionBodyView::Spawn {
                program: program@,
                arguments: view_all(arguments@),
            },
        }
    }
}

/// `token` between single quotes, with a backslash before each single quote
/// that it holds.
pub open spec fn quote(token: Seq<char>) -> Seq<char> {
    seq!['\''] + replace_char(token, '\'', "\\'"@) + seq!['\'']
}

/// Each of `tokens`, quoted.
pub open spec fn quote_all(tokens: Seq<Seq<char>>) -> Seq<Seq<char>> {
    Seq::new(tokens.len(), |i: int| quote(tokens[i]))
}

/// The words of the command line that runs `script` with `args`: a script
/// that is sourced stands behind a dot, and without arguments of its own it
/// gets an empty one, so that it does not see those of the caller.
pub open spec fn execute_tokens(script: ScriptView, args: Seq<Seq<char>>) -> Seq<Seq<char>> {
    if !script.should_source {
        seq![script.path] + args
    } else if args.len() == 0 {
        seq!["."@, script.path, Seq::empty()]
    } else {
        seq!["."@, script.path] + args
    }
}

/// The command line that runs `script` with `args`: its words, each quoted,
/// with one blank between each two.
pub open spec fn execute_line(script: ScriptView, args: Seq<Seq<char>>) -> Seq<char> {
    join(quote_all(execute_tokens(script, args)), " "@)
}

/// What is to be done to have the text of the kind `command_type` for
/// `script` and `args`.
///
/// To execute, the text is the command line. To complete, a script that
/// supports no completion gives the empty text; another is run with
/// `--complete` before the arguments, by `shell` where it is one to be sourced.
pub open spec fn execution_body(
    script: ScriptView,
    command_type: CommandType,
    shell: Seq<char>,
    args: Seq<Seq<char>>,
) -> ExecutionBodyView {
    match command_type {
        CommandType::Execute => ExecutionBodyView::Text(execute_line(script, args)),
        CommandType::Completion => if !script.should_complete {
            ExecutionBodyView::Text(Seq::empty())
        } else if script.should_source {
            ExecutionBodyView::Spawn {
                program: shell,
                arguments: seq![script.path, COMPLETE_FLAG@] + args,
            }
        } else {
            ExecutionBodyView::Spawn {
                program: script.path,
                arguments: seq![COMPLETE_FLAG@] + args,
            }
        },
    }
}

/// To quote a sequence with one more token is to quote the sequence and the
/// token.
pub proof fn lemma_quote_all_push(tokens: Seq<Seq<char>>, last: Seq<char>)
    ensures
        quote_all(tokens.push(last)) == quote_all(tokens).push(quote(last)),
{
}

/// The number of characters of `text` before its first single quote; its
/// length where it holds none.
pub open spec fn unquoted_len(text: Seq<char>) -> nat
    decreases text.len(),
{
    if text.len() == 0 || text[0] == '\'' {
        0
    } else {
        1 + unquoted_len(text.drop_first())
    }
}

/// The words that a POSIX shell reads from a line that is made of words in
/// single quotes with one blank between each two: between single quotes a
/// shell takes every character as it stands, up to the next single quote.
/// `None` for a line that is not made so.
pub open spec fn shell_words(line: Seq<char>) -> Option<Seq<Seq<char>>>
    decreases line.len(),
{
    if line.len() == 0 || line[0] != '\'' {
        None
    } else {
        let inner = line.skip(1);
        let n = unquoted_len(inner) as int;
        if n >= inner.len() {
            None
        } else {
            let word = inner.take(n);
            let rest = inner.skip(n + 1);
            if rest.len() == 0 {
                Some(seq![word])
            } else if rest[0] != ' ' {
                None
            } else {
                match shell_words(rest.skip(1)) {
                    Some(more) => Some(seq![word] + more),
                    None => None,
                }
            }
        }
    }
}

/// Before a single quote, a word that holds none is read whole.
pub proof fn lemma_unquoted_len(word: Seq<char>, rest: Seq<char>)
    requires
        !word.contains('\''),
    ensures
        unquoted_len(word + seq!['\''] + rest) == word.len(),
    decreases word.len(),
{
    let text = word + seq!['\''] + rest;
    if word.len() > 0 {
        let tail = word.drop_first();
        lemma_unquoted_len(tail, rest);
        assert(text.drop_first() =~= tail + seq!['\''] + rest);
    }
}

/// A shell reads a word in single quotes that holds none, and goes on
/// behind the blank that follows it.
pub proof fn lemma_shell_reads_word(word: Seq<char>, rest: Seq<char>)
    requires
        !word.contains('\''),
    ensures
        shell_words(seq!['\''] + word + seq!['\'']) == Some(seq![word]),
        shell_words(seq!['\''] + word + seq!['\''] + seq![' '] + rest) == match shell_words(
            rest,
        ) {
            Some(more) => Some(seq![word] + more),
            None => None,
        },
{
    let close = seq!['\''];
    assert(shell_words(close + word + close) == Some(seq![word])) by {
        let line = close + word + close;
        let inner = line.skip(1);
        assert(inner =~= word + close + Seq::<char>::empty());
        lemma_unquoted_len(word, Seq::empty());
        assert(inner.take(word.len() as int) =~= word);
    }
    assert(shell_words(close + word + close + seq![' '] + rest) == match shell_words(rest) {
        Some(more) => Some(seq![word] + more),
        None => None,
    }) by {
        let line = close + word + close + seq![' '] + rest;
        let inner = line.skip(1);
        let behind = seq![' '] + rest;
        assert(inner =~= word + close + behind);
        lemma_unquoted_len(word, behind);
        assert(inner.take(word.len() as int) =~= word);
        assert(inner.skip(word.len() as int + 1) =~= behind);
        assert(behind.skip(1) =~= rest);
    }
}

/// A shell reads back the words that were quoted and joined, where none of
/// them holds a single quote.
pub proof fn lemma_shell_reads_quoted(tokens: Seq<Seq<char>>)
    requires
        tokens.len() > 0,
        forall|i: int| 0 <= i < tokens.len() ==> !(#[trigger] tokens[i]).contains('\''),
    ensures
        shell_words(join(quote_all(tokens), " "@)) == Some(tokens),
    decreases tokens.len(),
{
    let first = tokens[0];
    let close = seq!['\''];
    assert(" "@ == seq![' ']) by {
        reveal_strlit(" ");
    }
    assert(quote(first) == close + first + close) by {
        lemma_replace_absent(first, '\'', "\\'"@);
    }
    if tokens.len() == 1 {
        lemma_shell_reads_word(first, Seq::empty());
    } else {
        let others = tokens.drop_first();
        lemma_shell_reads_quoted(others);
        let tail = join(quote_all(others), " "@);
        assert(join(quote_all(tokens), " "@) == quote(first) + " "@ + tail) by {
            lemma_join_front(quote_all(tokens), " "@);
            assert(quote_all(tokens).drop_first() =~= quote_all(others));
        }
        lemma_shell_reads_word(first, tail);
    }
}

/// The command line that runs a script is read back by a shell as the words
/// that it was made of, each argument as one word and unchanged, where neither
/// the path of the script nor an argument holds a single quote.
pub proof fn lemma_execute_line_reads_back(script: ScriptView, args: Seq<Seq<char>>)
    requires
        !script.path.contains('\''),
        forall|i: int| 0 <= i < args.len() ==> !(#[trigger] args[i]).contains('\''),
    ensures
        shell_words(execute_line(script, args)) == Some(execute_tokens(script, args)),
{
    reveal_strlit(".");
    let tokens = execute_tokens(script, args);
    assert forall|i: int| 0 <= i < tokens.len() implies !(#[trigger] tokens[i]).contains(
        '\'',
    ) by {}
    lemma_shell_reads_quoted(tokens);
}

/// `token`, quoted.
fn quoted(token: &Vec<char>) -> (text: Vec<char>)
    ensures
        text@ == quote(token@),
{
    let mut text: Vec<char> = Vec::new();
    text.push('\'');
    let escaped = replace_each(token, '\'', &chars_of("\\'"));
    extend(&mut text, &escaped);
    text.push('\'');
    text
}

impl Script {
    /// Whether the tag of the script is the one that goes with how it is
    /// called.
    pub open spec fn wf(&self) -> bool {
        self.filetype@ == kind_tag(self.should_source)
    }

    /// The language of the file whose content is `content`, by the names that
    /// occur in its first line.
    pub fn get_language_from_first_line(content: &str) -> (found: Option<Language>)
        ensures
            found == language_by_shebang(without_line_feed(first_line(content@))),
    {
        let text = chars_of(content);
        let end = line_end(&text, 0);
        let stop: usize = if end > 0 && text[end - 1] == '\n' {
            end - 1
        } else {
            end
        };
        let line = slice_of(&text, 0, stop);
        proof {
            assert(text@.skip(0) == text@);
            assert(line@ == without_line_feed(first_line(text@)));
        }
        language_named_in(&line)
    }

    /// The first known language whose extension `ext` ends with.
    pub fn extension_to_language(ext: String) -> (found: Option<Language>)
        ensures
            found == language_by_extension(ext@),
    {
        let path = chars_of(ext.as_str());
        let table = languages();
        let mut i: usize = 0;
        while i < table.len()
            invariant
                i <= table.len(),
                table@ == language_table(),
                path@ == ext@,
                language_by_extension(ext@) == first_by_extension(ext@, i as int),
            decreases table.len() - i,
        {
            let language = table[i];
            if ends_with(&path, &chars_of(language.extension)) {
                return Some(language);
            }
            i += 1;
        }
        None
    }

    /// The first known language whose name occurs in the line `shabang`.
    pub fn shabang_to_language(shabang: String) -> (found: Option<Language>)
        ensures
            found == language_by_shebang(shabang@),
    {
        let line = chars_of(shabang.as_str());
        language_named_in(&line)
    }

    /// Describes the script at `path`. `on_disk` is the text of the file at
    /// `path`, empty where that file cannot be read: it decides whether the
    /// script counts as a command and, failing the extension, its language.
    /// `body` is the text whose header is read.
    pub fn load_from_buffer(path: String, on_disk: &str, body: &str) -> (script: Script)
        ensures
            script@ == script_of(path@, on_disk@, body@),
            script.wf(),
    {
        let display = is_valid_command(on_disk);
        let language = match Script::extension_to_language(path.clone()) {
            Some(language) => language,
            None => match Script::get_language_from_first_line(on_disk) {
                Some(language) => language,
                None => fallback_language(),
            },
        };
        let comment = chars_of(language.comment_character);
        let text = chars_of(body);
        let header = read_header(&comment, &text);
        let filetype = if header.should_source {
            "s"
        } else {
            "x"
        };
        Script {
            help_string: string_of(&header.help),
            path,
            should_source: header.should_source,
            should_complete: header.should_complete,
            summary_string: string_of(&header.summary),
            language,
            display,
            filetype,
        }
    }

    /// Describes the script at `path`. `on_disk` is the text of its file, empty
    /// where that is no text as a whole; `opened` is the lines of the file
    /// that can be read, or what kept the file from being opened, which is
    /// handed on.
    pub fn load(path: &str, on_disk: &str, opened: Result<String, String>) -> (loaded: Result<
        Script,
        String,
    >)
        ensures
            match opened {
                Ok(content) => loaded is Ok && loaded->Ok_0@ == script_of(
                    path@,
                    on_disk@,
                    content@,
                ) && loaded->Ok_0.wf(),
                Err(failure) => loaded is Err && loaded->Err_0@ == failure@,
            },
    {
        match opened {
            Ok(content) => Ok(Script::load_from_buffer(path.to_owned(), on_disk, content.as_str())),
            Err(failure) => Err(failure),
        }
    }

    /// What is to be done to have the text of the kind `command_type` for this
    /// script and `args`: the text itself, or the program to run for it.
    pub fn get_execution_body(
        &self,
        command_type: CommandType,
        shell: &str,
        args: &Vec<String>,
    ) -> (body: ExecutionBody)
        ensures
            body@ == execution_body(self@, command_type, shell@, view_all(args@)),
    {
        match command_type {
            CommandType::Completion => {
                if !self.should_complete {
                    return ExecutionBody::Text(String::new());
                }
                let mut arguments: Vec<String> = Vec::new();
                if self.should_source {
                    arguments.push(self.path.clone());
                }
                arguments.push(COMPLETE_FLAG.to_owned());
                let ghost head = view_all(arguments@);
                let mut i: usize = 0;
                while i < args.len()
                    invariant
                        i <= args.len(),
                        view_all(arguments@) == head + view_all(args@).take(i as int),
                    decreases args.len() - i,
                {
                    proof {
                        lemma_view_all_push(arguments@, args@[i as int]);
                    }
                    arguments.push(args[i].clone());
                    i += 1;
                }
                assert(view_all(args@).take(args.len() as int) == view_all(args@));
                if self.should_source {
                    assert(head =~= seq![self@.path, COMPLETE_FLAG@]);
                    ExecutionBody::Spawn { program: shell.to_owned(), arguments }
                } else {
                    assert(head =~= seq![COMPLETE_FLAG@]);
                    ExecutionBody::Spawn { program: self.path.clone(), arguments }
                }
            },
            CommandType::Execute => {
                let mut words: Vec<Vec<char>> = Vec::new();
                let ghost mut tokens: Seq<Seq<char>> = Seq::empty();
                if self.should_source {
                    let word = quoted(&chars_of("."));
                    proof {
                        lemma_view_all_push(words@, word);
                        lemma_quote_all_push(tokens, "."@);
                        tokens = tokens.push("."@);
                    }
                    words.push(word);
                }
                let word = quoted(&chars_of(self.path.as_str()));
                proof {
                    lemma_view_all_push(words@, word);
                    lemma_quote_all_push(tokens, self.path@);
                    tokens = tokens.push(self.path@);
                }
                words.push(word);
                let ghost head = tokens;
                let mut i: usize = 0;
                while i < args.len()
                    invariant
                        i <= args.len(),
                        view_all(words@) == quote_all(tokens),
                        tokens == head + view_all(args@).take(i as int),
                    decreases args.len() - i,
                {
                    let word = quoted(&chars_of(args[i].as_str()));
                    proof {
                        lemma_view_all_push(words@, word);
                        lemma_quote_all_push(tokens, args@[i as int]@);
                        tokens = tokens.push(args@[i as int]@);
                    }
                    words.push(word);
                    i += 1;
                }
                if self.should_source && args.len() == 0 {
                    let word = quoted(&Vec::new());
                    proof {
                        lemma_view_all_push(words@, word);
                        lemma_quote_all_push(tokens, Seq::empty());
                        tokens = tokens.push(Seq::empty());
                    }
                    words.push(word);
                }
                assert(tokens =~= execute_tokens(self@, view_all(args@)));
                let line = join_all(&words, &chars_of(" "));
                ExecutionBody::Text(string_of(&line))
            },
        }
    }
}

} // verus!
