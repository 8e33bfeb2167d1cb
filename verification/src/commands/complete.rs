//! Completion: which script or namespace a sequence of arguments leads to, and
//! what is offered there.

use crate::commands::builtins::{builtin_names, is_builtin, Builtin};
use crate::directory::{
    is_namespace, is_tome_script_directory, is_tomeignored, join_path, outcome_view, path_in,
    tomeignored, ScanEntry, ScanEntryView,
};
use crate::script::{
    execution_body, is_hidden, is_tome_script, script_of, ExecutionBody, ExecutionBodyView, Script,
    SHEBANG, SOURCE,
};
use crate::text::{
    chars_of, contains, first_line, first_line_len, has_substring, in_order, join, join_all,
    lemma_first_line_len, lemma_in_order_exists, lemma_view_all_push, line_end, slice_of, sort,
    sorted, starts_with, string_of, view_all, without_line_feed,
};
use crate::types::CommandType;
use vstd::prelude::*;
use vstd::string::StringExecFns;
use vstd::utf8::{decode_utf8, valid_utf8};

verus! {

/// How a file presents itself in its first line.
#[derive(Clone, Copy, Debug, PartialEq, Eq, Structural)]
pub enum ScriptType {
    /// The file marks itself as one to be sourced.
    Source,
    /// The file begins with a shebang.
    Executable,
    /// Neither: the file is no command.
    Other,
}

/// The name of a script type.
pub open spec fn script_type_name(script_type: ScriptType) -> Seq<char> {
    match script_type {
        ScriptType::Executable => "executable"@,
        ScriptType::Source => "source"@,
        ScriptType::Other => "other"@,
    }
}

/// The name of a script type: `executable`, `source` or `other`.
pub fn script_type_to_string(script_type: ScriptType) -> (name: &'static str)
    ensures
        name@ == script_type_name(script_type),
{
    match script_type {
        ScriptType::Executable => "executable",
        ScriptType::Source => "source",
        ScriptType::Other => "other",
    }
}

/// The first line of `text` that holds anything besides its line feed, without
/// that line feed; empty where there is no such line.
pub open spec fn first_nonempty_line(text: Seq<char>) -> Seq<char>
    decreases text.len(),
    via first_nonempty_line_decreases
{
    if text.len() == 0 {
        Seq::empty()
    } else {
        let line = without_line_feed(first_line(text));
        if line.len() > 0 {
            line
        } else {
            first_nonempty_line(text.skip(first_line_len(text) as int))
        }
    }
}

#[via_fn]
proof fn first_nonempty_line_decreases(text: Seq<char>) {
    lemma_first_line_len(text);
}

/// The type of a file with the given content: `Executable` where its first
/// non-empty line begins with `#!`, else `Source` where that line holds the
/// word `SOURCE`, else `Other`.
pub open spec fn script_type_of(content: Seq<char>) -> ScriptType {
    let line = first_nonempty_line(content);
    if SHEBANG@.is_prefix_of(line) {
        ScriptType::Executable
    } else if contains(line, SOURCE@) {
        ScriptType::Source
    } else {
        ScriptType::Other
    }
}

/// Whether a file with the given content counts as a command.
pub open spec fn displayable(content: Seq<char>) -> bool {
    script_type_of(content) != ScriptType::Other
}

/// The first non-empty line of `text`, without its line feed.
fn sniffed_line(text: &Vec<char>) -> (line: Vec<char>)
    ensures
        line@ == first_nonempty_line(text@),
{
    let mut from: usize = 0;
    assert(text@.skip(0) == text@);
    while from < text.len()
        invariant
            from <= text.len(),
            first_nonempty_line(text@) == first_nonempty_line(text@.skip(from as int)),
        decreases text.len() - from,
    {
        let end = line_end(text, from);
        let stop: usize = if text[end - 1] == '\n' {
            end - 1
        } else {
            end
        };
        proof {
            let tail = text@.skip(from as int);
            lemma_first_line_len(tail);
            assert(tail.skip(first_line_len(tail) as int) == text@.skip(end as int));
        }
        if stop > from {
            return slice_of(text, from, stop);
        }
        from = end;
    }
    Vec::new()
}

/// Classifies a file by its content. `content` is the text of the file, empty
/// where the file could not be read.
pub fn command_type(content: &str) -> (script_type: ScriptType)
    ensures
        script_type == script_type_of(content@),
{
    let text = chars_of(content);
    let line = sniffed_line(&text);
    if starts_with(&line, &chars_of(SHEBANG)) {
        ScriptType::Executable
    } else if has_substring(&line, &chars_of(SOURCE)) {
        ScriptType::Source
    } else {
        ScriptType::Other
    }
}

/// Whether a file with the given content counts as a command: it does where
/// its first non-empty line begins with a shebang or holds the word `SOURCE`.
pub fn is_valid_command(content: &str) -> (valid: bool)
    ensures
        valid == displayable(content@),
{
    match command_type(content) {
        ScriptType::Executable => true,
        ScriptType::Source => true,
        ScriptType::Other => false,
    }
}

/// What is found at a path.
#[derive(Debug)]
pub enum PathKind {
    /// Nothing, or nothing that is a file or a directory.
    Missing,
    /// A directory.
    Directory,
    /// A file with this text; the text is empty where the file cannot be
    /// read.
    File { content: String },
}

/// What is found at a path, as a value.
pub enum PathKindView {
    Missing,
    Directory,
    File { content: Seq<char> },
}

impl View for PathKind {
    type V = PathKindView;

    open spec fn view(&self) -> PathKindView {
        match self {
            PathKind::Missing => PathKindView::Missing,
            PathKind::Directory => PathKindView::Directory,
            PathKind::File { content } => PathKindView::File { content: content@ },
        }
    }
}

/// A completion that walks down the script tree: it has matched some
/// arguments to nested directories and will try the next.
#[derive(Debug)]
pub struct Walk {
    /// The root of the script tree.
    pub root: String,
    /// The shell that the completion is for.
    pub shell: String,
    /// All the arguments.
    pub args: Vec<String>,
    /// The names of the builtin commands.
    pub builtins: Vec<String>,
    /// How many arguments are matched.
    pub consumed: usize,
    /// The path of the directory that they lead to.
    pub target: String,
}

/// A walk as a value.
pub struct WalkView {
    pub root: Seq<char>,
    pub shell: Seq<char>,
    pub args: Seq<Seq<char>>,
    pub builtins: Seq<Seq<char>>,
    pub consumed: nat,
    pub target: Seq<char>,
}

impl View for Walk {
    type V = WalkView;

    open spec fn view(&self) -> WalkView {
        WalkView {
            root: self.root@,
            shell: self.shell@,
            args: view_all(self.args@),
            builtins: view_all(self.builtins@),
            consumed: self.consumed as nat,
            target: self.target@,
        }
    }
}

/// A completion that has come to a directory and will offer what is in it.
#[derive(Debug)]
pub struct Offer {
    /// The root of the script tree.
    pub root: String,
    /// The path of the directory.
    pub target: String,
    /// Whether the directory is the root, come to without any argument.
    pub at_root: bool,
    /// The names of the builtin commands.
    pub builtins: Vec<String>,
}

/// An offer as a value.
pub struct OfferView {
    pub root: Seq<char>,
    pub target: Seq<char>,
    pub at_root: bool,
    pub builtins: Seq<Seq<char>>,
}

impl View for Offer {
    type V = OfferView;

    open spec fn view(&self) -> OfferView {
        OfferView {
            root: self.root@,
            target: self.target@,
            at_root: self.at_root,
            builtins: view_all(self.builtins@),
        }
    }
}

/// A completion that has come to a script and will ask it.
#[derive(Debug)]
pub struct Load {
    /// The shell that the completion is for.
    pub shell: String,
    /// The path of the script.
    pub path: String,
    /// The arguments behind the one that named the script.
    pub remaining: Vec<String>,
}

/// A load as a value.
pub struct LoadView {
    pub shell: Seq<char>,
    pub path: Seq<char>,
    pub remaining: Seq<Seq<char>>,
}

impl View for Load {
    type V = LoadView;

    open spec fn view(&self) -> LoadView {
        LoadView { shell: self.shell@, path: self.path@, remaining: view_all(self.remaining@) }
    }
}

/// What is in a directory, and what the ignore file of the root says.
#[derive(Debug)]
pub struct Listing {
    /// The entries of the directory.
    pub entries: Vec<ScanEntry>,
    /// The text of the ignore file of the root, empty where there is none.
    pub ignore_file: String,
}

/// A listing as a value.
pub struct ListingView {
    pub entries: Seq<ScanEntryView>,
    pub ignore_file: Seq<char>,
}

impl View for Listing {
    type V = ListingView;

    open spec fn view(&self) -> ListingView {
        ListingView { entries: view_all(self.entries@), ignore_file: self.ignore_file@ }
    }
}

/// What a completion asks for, or what it ends with.
#[derive(Debug)]
pub enum Request {
    /// What is at `path`? `walk` goes on from the answer.
    Probe { walk: Walk, path: String },
    /// What is in the directory at `path`? `offer` goes on from the answer.
    ReadDirectory { offer: Offer, path: String },
    /// What does the file at `path` hold? `load` goes on from the answer.
    LoadScript { load: Load, path: String },
    /// What does `program` print when run with `arguments`?
    Spawn { program: String, arguments: Vec<String> },
    /// The completion is over, with the text for the shell or with a failure.
    Finished(Result<String, String>),
}

/// A request as a value.
pub enum RequestView {
    Probe { walk: WalkView, path: Seq<char> },
    ReadDirectory { offer: OfferView, path: Seq<char> },
    LoadScript { load: LoadView, path: Seq<char> },
    Spawn { program: Seq<char>, arguments: Seq<Seq<char>> },
    Finished(Result<Seq<char>, Seq<char>>),
}

impl View for Request {
    type V = RequestView;

    open spec fn view(&self) -> RequestView {
        match self {
            Request::Probe { walk, path } => RequestView::Probe { walk: walk@, path: path@ },
            Request::ReadDirectory { offer, path } => RequestView::ReadDirectory {
                offer: offer@,
                path: path@,
            },
            Request::LoadScript { load, path } => RequestView::LoadScript {
                load: load@,
                path: path@,
            },
            Request::Spawn { program, arguments } => RequestView::Spawn {
                program: program@,
                arguments: view_all(arguments@),
            },
            Request::Finished(outcome) => RequestView::Finished(outcome_view(*outcome)),
        }
    }
}

/// The offer of the directory that `walk` has come to.
pub open spec fn offer_of(walk: WalkView) -> OfferView {
    OfferView {
        root: walk.root,
        target: walk.target,
        at_root: walk.consumed == 0,
        builtins: walk.builtins,
    }
}

/// The request to list the directory that `walk` has come to.
pub open spec fn stop_at(walk: WalkView) -> RequestView {
    RequestView::ReadDirectory { offer: offer_of(walk), path: walk.target }
}

/// The path that the next argument of `walk` names.
pub open spec fn next_path(walk: WalkView) -> Seq<char>
    recommends
        walk.consumed < walk.args.len(),
{
    join_path(walk.target, walk.args[walk.consumed as int])
}

/// What `walk` asks for: what its next argument names, or, with no argument
/// left, the entries of the directory that it has come to.
pub open spec fn go_on(walk: WalkView) -> RequestView {
    if walk.consumed < walk.args.len() {
        RequestView::Probe { walk, path: next_path(walk) }
    } else {
        stop_at(walk)
    }
}

/// What `walk` does when it learns what its next argument names.
///
/// A directory is entered, and the walk goes on. A file that counts as a
/// command is the script that is asked, with the arguments behind it. Anything
/// else does not match: the walk stops at the directory that it has come to.
pub open spec fn probed(walk: WalkView, found: PathKindView) -> RequestView {
    if walk.consumed >= walk.args.len() {
        stop_at(walk)
    } else {
        match found {
            PathKindView::Directory => go_on(
                WalkView {
                    consumed: walk.consumed + 1,
                    target: next_path(walk),
                    ..walk
                },
            ),
            PathKindView::File { content } => if displayable(content) {
                RequestView::LoadScript {
                    load: LoadView {
                        shell: walk.shell,
                        path: next_path(walk),
                        remaining: walk.args.skip(walk.consumed as int + 1),
                    },
                    path: next_path(walk),
                }
            } else {
                stop_at(walk)
            },
            PathKindView::Missing => stop_at(walk),
        }
    }
}

/// The request that begins a completion.
///
/// A first argument that names a builtin ends it at once, with nothing to
/// offer. Else a walk begins at the root.
pub open spec fn begun(
    root: Seq<char>,
    shell: Seq<char>,
    args: Seq<Seq<char>>,
    builtins: Seq<Seq<char>>,
) -> RequestView {
    if args.len() > 0 && builtins.contains(args[0]) {
        RequestView::Finished(Ok(Seq::empty()))
    } else {
        go_on(WalkView { root, shell, args, builtins, consumed: 0, target: root })
    }
}

/// The name of an entry.
pub open spec fn entry_name(entry: ScanEntryView) -> Seq<char> {
    match entry {
        ScanEntryView::Directory { name, .. } => name,
        ScanEntryView::File { name, .. } => name,
    }
}

/// Whether `entry` of the directory `dir` is offered, under the root `root`
/// whose ignore file has the text `ignore_file`.
///
/// A directory is offered where it is a namespace, a file where it is not
/// hidden and its text makes it count as a command; neither is offered where
/// the ignore file leaves its path out.
pub open spec fn is_offered(
    root: Seq<char>,
    ignore_file: Seq<char>,
    dir: Seq<char>,
    entry: ScanEntryView,
) -> bool {
    &&& match entry {
        ScanEntryView::Directory { name, has_ignore_file } => is_namespace(name, has_ignore_file),
        ScanEntryView::File { name, on_disk, .. } => !is_hidden(name) && displayable(on_disk),
    }
    &&& !tomeignored(root, ignore_file, join_path(dir, entry_name(entry)))
}

/// The names of the entries that are offered, in the order of the entries.
pub open spec fn names_offered(
    root: Seq<char>,
    ignore_file: Seq<char>,
    dir: Seq<char>,
    entries: Seq<ScanEntryView>,
) -> Seq<Seq<char>>
    decreases entries.len(),
{
    if entries.len() == 0 {
        Seq::empty()
    } else {
        let front = names_offered(root, ignore_file, dir, entries.drop_last());
        if is_offered(root, ignore_file, dir, entries.last()) {
            front.push(entry_name(entries.last()))
        } else {
            front
        }
    }
}

/// All that is offered in the directory of `offer`: the entries that are
/// offered, and in the root the builtins too.
pub open spec fn candidates(offer: OfferView, listing: ListingView) -> Seq<Seq<char>> {
    let entries = names_offered(
        offer.root,
        listing.ignore_file,
        offer.target,
        listing.entries,
    );
    if offer.at_root {
        entries + offer.builtins
    } else {
        entries
    }
}

/// What is offered in the directory of `offer`, as a text: the names in the
/// order of a dictionary, with one blank between each two.
pub open spec fn listing_text(offer: OfferView, listing: ListingView) -> Seq<char> {
    join(in_order(candidates(offer, listing)), " "@)
}

/// What a completion says of a directory that cannot be read.
pub const INVALID_ARGUMENT: &'static str = "Invalid argument to completion";

/// What a completion says, before the cause, of a script that cannot be
/// loaded.
pub const LOAD_FAILED: &'static str = "IOError loading file: ";

/// What a completion says, before the cause, of a script that cannot be run.
pub const RUN_FAILED: &'static str = "completion called failed: ";

/// What a completion says, before the cause, of a script that prints what is
/// no text.
pub const DECODE_FAILED: &'static str = "unable to parse completion results as a utf8 string: ";

/// What an offer ends with: the text of the listing, or, where the directory
/// could not be read, a failure.
pub open spec fn listed(offer: OfferView, listing: Option<ListingView>) -> RequestView {
    match listing {
        Some(listing) => RequestView::Finished(Ok(listing_text(offer, listing))),
        None => RequestView::Finished(Err(INVALID_ARGUMENT@)),
    }
}

/// What a load does with the text of its script, or with what kept the file
/// from being read: the script is described by its text and asked for the
/// body of a completion.
pub open spec fn loaded(
    load: LoadView,
    on_disk: Seq<char>,
    content: Result<Seq<char>, Seq<char>>,
) -> RequestView {
    match content {
        Err(failure) => RequestView::Finished(Err(LOAD_FAILED@ + failure)),
        Ok(text) => match execution_body(
            script_of(load.path, on_disk, text),
            CommandType::Completion,
            load.shell,
            load.remaining,
        ) {
            ExecutionBodyView::Text(text) => RequestView::Finished(Ok(text)),
            ExecutionBodyView::Spawn { program, arguments } => RequestView::Spawn {
                program,
                arguments,
            },
        },
    }
}

/// What `String::from_utf8` says of bytes that are not UTF-8.
pub uninterp spec fn utf8_failure(bytes: Seq<u8>) -> Seq<char>;

/// What a completion ends with when its script was run: what the script
/// printed, or why there is no such text.
pub open spec fn spawned(output: Result<Seq<u8>, Seq<char>>) -> Result<Seq<char>, Seq<char>> {
    match output {
        Err(failure) => Err(RUN_FAILED@ + failure),
        Ok(bytes) => if valid_utf8(bytes) {
            Ok(decode_utf8(bytes))
        } else {
            Err(DECODE_FAILED@ + utf8_failure(bytes))
        },
    }
}

/// Calls `String::from_utf8`: bytes that are UTF-8 give the text that they
/// encode, others the failure that it reports, as a text.
#[verifier::external_body]
fn decode(bytes: Vec<u8>) -> (decoded: Result<String, String>)
    ensures
        match decoded {
            Ok(text) => valid_utf8(bytes@) && text@ == decode_utf8(bytes@),
            Err(failure) => !valid_utf8(bytes@) && failure@ == utf8_failure(bytes@),
        },
{
    match String::from_utf8(bytes) {
        Ok(text) => Ok(text),
        Err(failure) => Err(format!("{}", failure)),
    }
}

/// A copy of `list[from..]`.
fn copy_from(list: &[String], from: usize) -> (copy: Vec<String>)
    requires
        from <= list.len(),
    ensures
        view_all(copy@) == view_all(list@).skip(from as int),
{
    let mut copy: Vec<String> = Vec::new();
    let mut i: usize = from;
    while i < list.len()
        invariant
            from <= i <= list.len(),
            view_all(copy@) == view_all(list@).subrange(from as int, i as int),
        decreases list.len() - i,
    {
        proof {
            lemma_view_all_push(copy@, list@[i as int]);
        }
        copy.push(list[i].clone());
        i += 1;
    }
    copy
}

/// Begins the completion of `args` under the script tree at
/// `command_directory_path`, for the shell `shell`.
pub fn complete(
    command_directory_path: &str,
    shell: &str,
    args: &[String],
    builtins: &Vec<Builtin>,
) -> (request: Request)
    ensures
        request@ == begun(
            command_directory_path@,
            shell@,
            view_all(args@),
            builtin_names(view_all(builtins@)),
        ),
{
    if args.len() > 0 && is_builtin(builtins, &args[0]) {
        return Request::Finished(Ok(String::new()));
    }
    let all = copy_from(args, 0);
    assert(view_all(args@).skip(0) == view_all(args@));
    let mut names: Vec<String> = Vec::new();
    let mut k: usize = 0;
    let ghost wanted = builtin_names(view_all(builtins@));
    while k < builtins.len()
        invariant
            k <= builtins.len(),
            wanted == builtin_names(view_all(builtins@)),
            view_all(names@) == wanted.take(k as int),
        decreases builtins.len() - k,
    {
        proof {
            lemma_view_all_push(names@, builtins@[k as int].name);
        }
        names.push(builtins[k].name.clone());
        k += 1;
    }
    assert(wanted.take(builtins.len() as int) == wanted);
    Walk {
        root: command_directory_path.to_owned(),
        shell: shell.to_owned(),
        args: all,
        builtins: names,
        consumed: 0,
        target: command_directory_path.to_owned(),
    }.resume()
}

/// What a completion ends with when its script was run. `output` is what the
/// script printed, or what kept it from running.
pub fn completion_output(output: Result<Vec<u8>, String>) -> (outcome: Result<String, String>)
    ensures
        outcome_view(outcome) == spawned(
            match output {
                Ok(bytes) => Ok(bytes@),
                Err(failure) => Err(failure@),
            },
        ),
{
    match output {
        Err(failure) => {
            let mut message = RUN_FAILED.to_owned();
            message.append(failure.as_str());
            Err(message)
        },
        Ok(bytes) => match decode(bytes) {
            Ok(text) => Ok(text),
            Err(failure) => {
                let mut message = DECODE_FAILED.to_owned();
                message.append(failure.as_str());
                Err(message)
            },
        },
    }
}

impl Walk {
    /// The offer of the directory that the walk has come to.
    fn into_offer(self) -> (request: Request)
        ensures
            request@ == stop_at(self@),
    {
        let Walk { root, shell: _, args: _, builtins, consumed, target } = self;
        let path = target.clone();
        let offer = Offer { root, target, at_root: consumed == 0, builtins };
        Request::ReadDirectory { offer, path }
    }

    /// What the walk asks for: what its next argument names, or, with no
    /// argument left, the entries of the directory that it has come to.
    pub fn resume(self) -> (request: Request)
        ensures
            request@ == go_on(self@),
    {
        if self.consumed < self.args.len() {
            let path = path_in(self.target.as_str(), self.args[self.consumed].as_str());
            Request::Probe { walk: self, path }
        } else {
            self.into_offer()
        }
    }

    /// Goes on with what was found at the path that the walk asked for.
    pub fn probed(self, found: PathKind) -> (request: Request)
        ensures
            request@ == probed(self@, found@),
            request is LoadScript ==> (found matches PathKind::File { content } && displayable(
                content@,
            )),
    {
        if self.consumed >= self.args.len() {
            return self.into_offer();
        }
        match found {
            PathKind::Directory => {
                let path = path_in(self.target.as_str(), self.args[self.consumed].as_str());
                let Walk { root, shell, args, builtins, consumed, target: _ } = self;
                Walk { root, shell, args, builtins, consumed: consumed + 1, target: path }.resume()
            },
            PathKind::File { content } => {
                if is_valid_command(content.as_str()) {
                    let path = path_in(self.target.as_str(), self.args[self.consumed].as_str());
                    let remaining = copy_from(self.args.as_slice(), self.consumed + 1);
                    Request::LoadScript {
                        load: Load { shell: self.shell, path: path.clone(), remaining },
                        path,
                    }
                } else {
                    self.into_offer()
                }
            },
            PathKind::Missing => self.into_offer(),
        }
    }
}

impl Offer {
    /// Whether `entry` of the directory is offered.
    fn offers(&self, ignore_file: &str, entry: &ScanEntry) -> (offered: bool)
        ensures
            offered == is_offered(self.root@, ignore_file@, self.target@, entry@),
    {
        match entry {
            ScanEntry::Directory { name, has_ignore_file } => {
                is_tome_script_directory(name.as_str(), *has_ignore_file) && !is_tomeignored(
                    self.root.as_str(),
                    ignore_file,
                    path_in(self.target.as_str(), name.as_str()).as_str(),
                )
            },
            ScanEntry::File { name, on_disk, .. } => {
                is_tome_script(name.as_str()) && is_valid_command(on_disk.as_str())
                    && !is_tomeignored(
                    self.root.as_str(),
                    ignore_file,
                    path_in(self.target.as_str(), name.as_str()).as_str(),
                )
            },
        }
    }

    /// Ends the completion with what the directory offers. `listing` is what
    /// is in the directory, or nothing where it could not be read.
    pub fn listed(self, listing: Option<Listing>) -> (request: Request)
        ensures
            request@ == listed(
                self@,
                match listing {
                    Some(listing) => Some(listing@),
                    None => None,
                },
            ),
    {
        let listing = match listing {
            Some(listing) => listing,
            None => {
                return Request::Finished(Err(INVALID_ARGUMENT.to_owned()));
            },
        };
        let ghost entries = view_all(listing.entries@);
        let mut names: Vec<Vec<char>> = Vec::new();
        let mut i: usize = 0;
        while i < listing.entries.len()
            invariant
                i <= listing.entries.len(),
                entries == view_all(listing.entries@),
                view_all(names@) == names_offered(
                    self.root@,
                    listing.ignore_file@,
                    self.target@,
                    entries.take(i as int),
                ),
            decreases listing.entries.len() - i,
        {
            let entry = &listing.entries[i];
            proof {
                let next = entries.take(i + 1);
                assert(next.drop_last() == entries.take(i as int));
            }
            if self.offers(listing.ignore_file.as_str(), entry) {
                let name = match entry {
                    ScanEntry::Directory { name, .. } => chars_of(name.as_str()),
                    ScanEntry::File { name, .. } => chars_of(name.as_str()),
                };
                proof {
                    lemma_view_all_push(names@, name);
                }
                names.push(name);
            }
            i += 1;
        }
        assert(entries.take(listing.entries.len() as int) == entries);
        let ghost offered = view_all(names@);
        if self.at_root {
            let mut k: usize = 0;
            while k < self.builtins.len()
                invariant
                    k <= self.builtins.len(),
                    view_all(names@) == offered + view_all(self.builtins@).take(k as int),
                decreases self.builtins.len() - k,
            {
                let name = chars_of(self.builtins[k].as_str());
                proof {
                    lemma_view_all_push(names@, name);
                }
                names.push(name);
                k += 1;
            }
            assert(view_all(self.builtins@).take(self.builtins.len() as int) == view_all(
                self.builtins@,
            ));
        }
        let text = join_all(&sort(names), &chars_of(" "));
        Request::Finished(Ok(string_of(&text)))
    }
}

impl Load {
    /// Goes on with the script as its file describes it. `on_disk` is the text
    /// of the file, empty where that is no text as a whole; `content` is the
    /// lines of the file that can be read, or what kept the file from being
    /// opened.
    pub fn loaded(self, on_disk: &str, content: Result<String, String>) -> (request: Request)
        ensures
            request@ == loaded(self@, on_disk@, outcome_view(content)),
    {
        match Script::load(self.path.as_str(), on_disk, content) {
            Err(failure) => {
                let mut message = LOAD_FAILED.to_owned();
                message.append(failure.as_str());
                Request::Finished(Err(message))
            },
            Ok(script) => {
                match script.get_execution_body(
                    CommandType::Completion,
                    self.shell.as_str(),
                    &self.remaining,
                ) {
                    ExecutionBody::Text(text) => Request::Finished(Ok(text)),
                    ExecutionBody::Spawn { program, arguments } => Request::Spawn {
                        program,
                        arguments,
                    },
                }
            },
        }
    }
}

/// The path that the first `k` of `args` lead to from `root`.
pub open spec fn target_after(root: Seq<char>, args: Seq<Seq<char>>, k: nat) -> Seq<char>
    decreases k,
{
    if k == 0 {
        root
    } else {
        join_path(target_after(root, args, (k - 1) as nat), args[k - 1])
    }
}

/// How many of `args` lead through nested directories, where the first `k`
/// do: the number of the last argument, from `k` on, up to which each names a
/// directory in the one before. `found` says what is at each path.
pub open spec fn matched_from(
    found: spec_fn(Seq<char>) -> PathKindView,
    root: Seq<char>,
    args: Seq<Seq<char>>,
    k: nat,
) -> nat
    decreases args.len() - k,
{
    if k < args.len() && found(target_after(root, args, k + 1)) is Directory {
        matched_from(found, root, args, k + 1)
    } else {
        k
    }
}

/// How many of `args` lead through nested directories from `root`.
pub open spec fn matched(
    found: spec_fn(Seq<char>) -> PathKindView,
    root: Seq<char>,
    args: Seq<Seq<char>>,
) -> nat {
    matched_from(found, root, args, 0)
}

/// The walk that has matched the first `k` arguments.
pub open spec fn walk_at(
    root: Seq<char>,
    shell: Seq<char>,
    args: Seq<Seq<char>>,
    builtins: Seq<Seq<char>>,
    k: nat,
) -> WalkView {
    WalkView { root, shell, args, builtins, consumed: k, target: target_after(root, args, k) }
}

/// What the arguments lead to, where `found` says what is at each path: the
/// script that the argument behind the nested directories names, with the
/// arguments behind it, where that is a file that counts as a command; else
/// the innermost of the directories.
pub open spec fn resolution(
    found: spec_fn(Seq<char>) -> PathKindView,
    root: Seq<char>,
    shell: Seq<char>,
    args: Seq<Seq<char>>,
    builtins: Seq<Seq<char>>,
) -> RequestView {
    let dirs = matched(found, root, args);
    let next = target_after(root, args, dirs + 1);
    if dirs < args.len() && (found(next) matches PathKindView::File { content } && displayable(
        content,
    )) {
        RequestView::LoadScript {
            load: LoadView { shell, path: next, remaining: args.skip(dirs as int + 1) },
            path: next,
        }
    } else {
        stop_at(walk_at(root, shell, args, builtins, dirs))
    }
}

/// Where a completion comes to when each of its questions of what is at a
/// path is answered by `found`: the first request that is no such question.
pub open spec fn walk_end(
    found: spec_fn(Seq<char>) -> PathKindView,
    request: RequestView,
) -> RequestView
    decreases
        (match request {
            RequestView::Probe { walk, .. } => walk.args.len() - walk.consumed,
            _ => 0,
        }),
{
    match request {
        RequestView::Probe { walk, path } => if walk.consumed < walk.args.len() {
            walk_end(found, probed(walk, found(path)))
        } else {
            request
        },
        _ => request,
    }
}

/// The arguments that are matched to directories are the longest run of
/// arguments that lead through nested directories: each of them names a
/// directory in the one before, and the argument behind them, if there is
/// one, names no directory.
pub proof fn lemma_matched_is_longest(
    found: spec_fn(Seq<char>) -> PathKindView,
    root: Seq<char>,
    args: Seq<Seq<char>>,
)
    ensures
        matched(found, root, args) <= args.len(),
        forall|k: nat|
            1 <= k <= matched(found, root, args) ==> found(
                #[trigger] target_after(root, args, k),
            ) is Directory,
        matched(found, root, args) < args.len() ==> !(found(
            target_after(root, args, matched(found, root, args) + 1),
        ) is Directory),
{
    lemma_matched_from(found, root, args, 0);
}

/// The same, from the first `k` arguments on.
proof fn lemma_matched_from(
    found: spec_fn(Seq<char>) -> PathKindView,
    root: Seq<char>,
    args: Seq<Seq<char>>,
    k: nat,
)
    requires
        k <= args.len(),
    ensures
        k <= matched_from(found, root, args, k) <= args.len(),
        forall|j: nat|
            k < j <= matched_from(found, root, args, k) ==> found(
                #[trigger] target_after(root, args, j),
            ) is Directory,
        matched_from(found, root, args, k) < args.len() ==> !(found(
            target_after(root, args, matched_from(found, root, args, k) + 1),
        ) is Directory),
    decreases args.len() - k,
{
    if k < args.len() && found(target_after(root, args, k + 1)) is Directory {
        lemma_matched_from(found, root, args, k + 1);
    }
}

/// A walk that has matched the first `k` arguments ends where the arguments
/// lead, where those `k` lead through nested directories.
proof fn lemma_walk_from(
    found: spec_fn(Seq<char>) -> PathKindView,
    root: Seq<char>,
    shell: Seq<char>,
    args: Seq<Seq<char>>,
    builtins: Seq<Seq<char>>,
    k: nat,
)
    requires
        k <= args.len(),
        matched_from(found, root, args, k) == matched(found, root, args),
    ensures
        walk_end(found, go_on(walk_at(root, shell, args, builtins, k))) == resolution(
            found,
            root,
            shell,
            args,
            builtins,
        ),
    decreases args.len() - k,
{
    if k < args.len() {
        let walk = walk_at(root, shell, args, builtins, k);
        let next = target_after(root, args, k + 1);
        assert(walk_end(found, go_on(walk)) == walk_end(found, probed(walk, found(next))));
        if found(next) is Directory {
            lemma_walk_from(found, root, shell, args, builtins, k + 1);
        }
    }
}

/// A completion that does not begin with a builtin ends where the arguments
/// lead: it matches the longest run of arguments that lead through nested
/// directories, then at most one more, which names a file that counts as a
/// command; it matches nothing behind an argument that does not match.
pub proof fn lemma_completion_resolves(
    found: spec_fn(Seq<char>) -> PathKindView,
    root: Seq<char>,
    shell: Seq<char>,
    args: Seq<Seq<char>>,
    builtins: Seq<Seq<char>>,
)
    requires
        !(args.len() > 0 && builtins.contains(args[0])),
    ensures
        walk_end(found, begun(root, shell, args, builtins)) == resolution(
            found,
            root,
            shell,
            args,
            builtins,
        ),
{
    lemma_walk_from(found, root, shell, args, builtins, 0);
}

/// A completion comes to a script only where what is at its path is a file
/// that counts as a command.
pub proof fn lemma_script_is_displayable(
    found: spec_fn(Seq<char>) -> PathKindView,
    root: Seq<char>,
    shell: Seq<char>,
    args: Seq<Seq<char>>,
    builtins: Seq<Seq<char>>,
)
    ensures
        walk_end(found, begun(root, shell, args, builtins)) matches RequestView::LoadScript {
            path,
            ..
        } ==> (found(path) matches PathKindView::File { content } && displayable(content)),
{
    if !(args.len() > 0 && builtins.contains(args[0])) {
        lemma_completion_resolves(found, root, shell, args, builtins);
    }
}

/// The names that a directory offers stand in the order of a dictionary. They
/// are the names of the entries that are offered, each as often as it is
/// offered, and the builtins besides if and only if the directory is the
/// root, come to without any argument.
pub proof fn lemma_listing_names(offer: OfferView, listing: ListingView)
    ensures
        listing_text(offer, listing) == join(in_order(candidates(offer, listing)), " "@),
        sorted(in_order(candidates(offer, listing))),
        in_order(candidates(offer, listing)).to_multiset() == names_offered(
            offer.root,
            listing.ignore_file,
            offer.target,
            listing.entries,
        ).to_multiset().add(
            if offer.at_root {
                offer.builtins.to_multiset()
            } else {
                vstd::multiset::Multiset::empty()
            },
        ),
{
    broadcast use vstd::multiset::group_multiset_axioms;

    let entries = names_offered(offer.root, listing.ignore_file, offer.target, listing.entries);
    lemma_in_order_exists(candidates(offer, listing));
    if offer.at_root {
        vstd::seq_lib::lemma_multiset_commutative(entries, offer.builtins);
    }
}

} // verus!
