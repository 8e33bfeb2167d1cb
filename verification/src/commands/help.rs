//! Help: the text that names every command, builtin or script, with what it
//! is for.

use crate::commands::builtins::{Builtin, BuiltinView};
use crate::directory::{is_tomeignored, tomeignored};
use crate::script::{Script, ScriptView};
use crate::text::{
    chars_of, extend, in_order, join, join_all, lemma_view_all_push, replace_char, replace_each,
    sort, string_of, view_all,
};
use vstd::prelude::*;

verus! {

/// `text` with each single quote written so that it stands for itself
/// between single quotes: the quotes are closed, a quote behind a backslash
/// follows, and the quotes are opened again.
pub open spec fn escaped(text: Seq<char>) -> Seq<char> {
    replace_char(text, '\'', "'\\''"@)
}

/// `s` with each single quote written so that it stands for itself between
/// single quotes.
pub fn escape_slashes(s: &str) -> (text: String)
    ensures
        text@ == escaped(s@),
{
    string_of(&replace_each(&chars_of(s), '\'', &chars_of("'\\''")))
}

/// The line of the help for a builtin.
pub open spec fn builtin_line(builtin: BuiltinView) -> Seq<char> {
    "\t"@ + escaped(builtin.name) + ": "@ + escaped(builtin.help_text)
}

/// The line of the help for the script `script` whose command is `command`.
pub open spec fn command_line(command: Seq<char>, script: ScriptView) -> Seq<char> {
    "\t"@ + escaped(command) + " ("@ + script.filetype + "|"@ + script.language.name@ + "): "@
        + escaped(script.summary)
}

/// The lines of the help for the given builtins.
pub open spec fn builtin_lines(builtins: Seq<BuiltinView>) -> Seq<Seq<char>> {
    Seq::new(builtins.len(), |i: int| builtin_line(builtins[i]))
}

/// Whether the help names `script`: it does where the script counts as a
/// command and the ignore file of the root does not leave it out.
pub open spec fn is_listed(root: Seq<char>, ignore_file: Seq<char>, script: ScriptView) -> bool {
    script.display && !tomeignored(root, ignore_file, script.path)
}

/// The lines of the help for those of the given scripts that it names.
pub open spec fn command_lines(
    root: Seq<char>,
    ignore_file: Seq<char>,
    commands: Seq<(Seq<char>, ScriptView)>,
) -> Seq<Seq<char>>
    decreases commands.len(),
{
    if commands.len() == 0 {
        Seq::empty()
    } else {
        let front = command_lines(root, ignore_file, commands.drop_last());
        let (command, script) = commands.last();
        if is_listed(root, ignore_file, script) {
            front.push(command_line(command, script))
        } else {
            front
        }
    }
}

/// What the help begins with, up to the root.
pub const HELP_HEAD: &'static str =
    "echo -e\n'This is an instance of tome, running against the directory: ";

/// What stands in the help between the root and the builtins.
pub const HELP_BUILTINS: &'static str =
    ".\n\\nThe commands are namespaced by the directory structure.\n\\\\nBuiltin commands:\n\\\\n  ";

/// What stands in the help between the builtins and the commands.
pub const HELP_COMMANDS: &'static str = "\n\\\\n\\\\nCommands available:\n\\\\n  ";

/// What the help ends with.
pub const HELP_TAIL: &'static str = "\n';";

/// What stands between two lines of a list in the help.
pub const HELP_BREAK: &'static str = "\\n  ";

/// The help for the script tree at `root`: a shell command that prints the
/// root, the builtins and the commands, each list in the order of a
/// dictionary.
pub open spec fn help_text(
    root: Seq<char>,
    builtins: Seq<BuiltinView>,
    commands: Seq<(Seq<char>, ScriptView)>,
    ignore_file: Seq<char>,
) -> Seq<char> {
    HELP_HEAD@ + root + HELP_BUILTINS@ + join(in_order(builtin_lines(builtins)), HELP_BREAK@)
        + HELP_COMMANDS@ + join(
        in_order(command_lines(root, ignore_file, commands)),
        HELP_BREAK@,
    ) + HELP_TAIL@
}

/// The line of the help for a builtin.
fn line_of_builtin(builtin: &Builtin) -> (line: Vec<char>)
    ensures
        line@ == builtin_line(builtin@),
{
    let quote = chars_of("'\\''");
    let mut line = chars_of("\t");
    extend(&mut line, &replace_each(&chars_of(builtin.name.as_str()), '\'', &quote));
    extend(&mut line, &chars_of(": "));
    extend(&mut line, &replace_each(&chars_of(builtin.help_text.as_str()), '\'', &quote));
    line
}

/// The line of the help for a script.
fn line_of_command(command: &String, script: &Script) -> (line: Vec<char>)
    ensures
        line@ == command_line(command@, script@),
{
    let quote = chars_of("'\\''");
    let mut line = chars_of("\t");
    extend(&mut line, &replace_each(&chars_of(command.as_str()), '\'', &quote));
    extend(&mut line, &chars_of(" ("));
    extend(&mut line, &chars_of(script.filetype));
    extend(&mut line, &chars_of("|"));
    extend(&mut line, &chars_of(script.language.name));
    extend(&mut line, &chars_of("): "));
    extend(&mut line, &replace_each(&chars_of(script.summary_string.as_str()), '\'', &quote));
    line
}

/// The help for the script tree at `root`.
///
/// `scanned` is what the scan of the root ended with: the scripts, each with
/// the name of its command, or a failure, which is handed on. `ignore_file` is
/// the text of the ignore file of the root, empty where there is none.
pub fn help(
    root: &str,
    builtins: &Vec<Builtin>,
    scanned: Result<Vec<(String, Script)>, String>,
    ignore_file: &str,
) -> (text: Result<String, String>)
    ensures
        match scanned {
            Ok(commands) => text is Ok && text->Ok_0@ == help_text(
                root@,
                view_all(builtins@),
                view_all(commands@),
                ignore_file@,
            ),
            Err(failure) => text is Err && text->Err_0@ == failure@,
        },
{
    let commands = match scanned {
        Ok(commands) => commands,
        Err(failure) => {
            return Err(failure);
        },
    };
    let mut builtins_with_help: Vec<Vec<char>> = Vec::new();
    let mut i: usize = 0;
    let ghost wanted = builtin_lines(view_all(builtins@));
    while i < builtins.len()
        invariant
            i <= builtins.len(),
            wanted == builtin_lines(view_all(builtins@)),
            view_all(builtins_with_help@) == wanted.take(i as int),
        decreases builtins.len() - i,
    {
        let line = line_of_builtin(&builtins[i]);
        proof {
            lemma_view_all_push(builtins_with_help@, line);
        }
        builtins_with_help.push(line);
        i += 1;
    }
    assert(wanted.take(builtins.len() as int) == wanted);
    let mut commands_with_help: Vec<Vec<char>> = Vec::new();
    let mut k: usize = 0;
    let ghost all = view_all(commands@);
    while k < commands.len()
        invariant
            k <= commands.len(),
            all == view_all(commands@),
            view_all(commands_with_help@) == command_lines(root@, ignore_file@, all.take(k as int)),
        decreases commands.len() - k,
    {
        let command = &commands[k].0;
        let script = &commands[k].1;
        proof {
            let next = all.take(k + 1);
            assert(next.drop_last() == all.take(k as int));
        }
        if script.display && !is_tomeignored(root, ignore_file, script.path.as_str()) {
            let line = line_of_command(command, script);
            proof {
                lemma_view_all_push(commands_with_help@, line);
            }
            commands_with_help.push(line);
        }
        k += 1;
    }
    assert(all.take(commands.len() as int) == all);
    let between = chars_of(HELP_BREAK);
    let mut text = chars_of(HELP_HEAD);
    extend(&mut text, &chars_of(root));
    extend(&mut text, &chars_of(HELP_BUILTINS));
    extend(&mut text, &join_all(&sort(builtins_with_help), &between));
    extend(&mut text, &chars_of(HELP_COMMANDS));
    extend(&mut text, &join_all(&sort(commands_with_help), &between));
    extend(&mut text, &chars_of(HELP_TAIL));
    Ok(string_of(&text))
}

} // verus!
