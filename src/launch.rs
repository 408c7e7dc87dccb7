//! The decisions around the picker and the launch: which program runs with
//! which arguments, in which directory, or which configuration error ends
//! the run. The processes themselves are started by the caller.

use vstd::prelude::*;

use crate::entry::{opt_view, DesktopEntry, EntryType};
use crate::error::LaunchError;
use crate::listing::{find_entry, first_match};
use crate::dirs::opt_str_view;
use crate::text::{trim, trimmed, views};

verus! {

/// The words that `shlex::split` makes of a text, or `None` where the text
/// is malformed (an unclosed quote, a trailing backslash).
pub uninterp spec fn shell_words(s: Seq<char>) -> Option<Seq<Seq<char>>>;

/// The view of an optional list of words.
pub open spec fn opt_words(o: Option<Vec<String>>) -> Option<Seq<Seq<char>>> {
    match o {
        Some(v) => Some(views(v@)),
        None => None,
    }
}

/// Relies on `shlex::split`: POSIX-shell-style splitting into words, with
/// quotes and backslash escapes, and `None` on malformed input.
#[verifier::external_body]
fn split_words(s: &str) -> (r: Option<Vec<String>>)
    ensures
        opt_words(r) == shell_words(s@),
{
    shlex::split(s)
}

/// A program and its arguments.
#[derive(Debug)]
pub struct Invocation {
    pub program: String,
    pub args: Vec<String>,
}

/// The words of an invocation, the program first.
pub open spec fn argv(i: Invocation) -> Seq<Seq<char>> {
    seq![i.program@] + views(i.args@)
}

/// Whether a text splits into at least one word.
pub open spec fn runnable(w: Option<Seq<Seq<char>>>) -> bool {
    w matches Some(ws) && ws.len() > 0
}

/// Splits a command line into a program and its arguments; `None` where it
/// is malformed or holds no word.
pub fn invocation_of(line: &str) -> (r: Option<Invocation>)
    ensures
        r is Some <==> runnable(shell_words(line@)),
        r matches Some(i) ==> shell_words(line@) == Some(argv(i)),
{
    match split_words(line) {
        Some(mut words) => {
            if words.len() == 0 {
                return None;
            }
            let ghost all = views(words@);
            let program = words.remove(0);
            assert(all == seq![program@] + views(words@));
            Some(Invocation { program, args: words })
        },
        None => None,
    }
}

/// How the picker is started, from its configured invocation string:
/// `Ok(None)` where none is configured and the listing is printed instead.
pub fn plan_picker(picker: Option<&str>) -> (r: Result<Option<Invocation>, LaunchError>)
    ensures
        match picker {
            None => r matches Ok(None),
            Some(p) => if runnable(shell_words(p@)) {
                r matches Ok(Some(i)) && shell_words(p@) == Some(argv(i))
            } else {
                r matches Err(LaunchError::InvalidPicker)
            },
        },
{
    match picker {
        None => Ok(None),
        Some(p) => match invocation_of(p) {
            Some(i) => Ok(Some(i)),
            None => Err(LaunchError::InvalidPicker),
        },
    }
}

/// Whether `t` holds the placeholder `{}`.
pub open spec fn has_placeholder(t: Seq<char>) -> bool {
    exists|i: int| 0 <= i < t.len() - 1 && t[i] == '{' && #[trigger] t[i + 1] == '}'
}

/// `t` with each `{}`, read from the left, replaced by `c`.
pub open spec fn substituted(t: Seq<char>, c: Seq<char>) -> Seq<char>
    decreases t.len(),
{
    if t.len() < 2 {
        t
    } else if t[0] == '{' && t[1] == '}' {
        c + substituted(t.subrange(2, t.len() as int), c)
    } else {
        seq![t[0]] + substituted(t.drop_first(), c)
    }
}

/// Whether `template` holds the placeholder `{}`.
pub fn contains_placeholder(template: &str) -> (r: bool)
    ensures
        r == has_placeholder(template@),
{
    let n = template.unicode_len();
    let mut i: usize = 0;
    while n > 0 && i < n - 1
        invariant
            n == template@.len(),
            i <= n,
            forall|j: int| 0 <= j < i && j < n - 1 ==> !(template@[j] == '{' && #[trigger] template@[j + 1] == '}'),
        decreases n - i,
    {
        if template.get_char(i) == '{' && template.get_char(i + 1) == '}' {
            return true;
        }
        i = i + 1;
    }
    false
}

/// Puts `command` in place of each `{}` of `template`.
pub fn fill_template(template: &str, command: &str) -> (r: String)
    ensures
        r@ == substituted(template@, command@),
{
    let n = template.unicode_len();
    let mut out = String::new();
    let mut start: usize = 0;
    let mut i: usize = 0;
    assert(template@.subrange(0, n as int) == template@);
    while i < n
        invariant
            n == template@.len(),
            start <= i <= n,
            out@ + template@.subrange(start as int, i as int) + substituted(
                template@.subrange(i as int, n as int),
                command@,
            ) == substituted(template@, command@),
        decreases n - i,
    {
        let ghost rest = template@.subrange(i as int, n as int);
        if i + 1 < n && template.get_char(i) == '{' && template.get_char(i + 1) == '}' {
            let ghost before = out@;
            out.append(template.substring_char(start, i));
            out.append(command);
            assert(rest.subrange(2, rest.len() as int) == template@.subrange(i + 2, n as int));
            assert(template@.subrange((i + 2) as int, (i + 2) as int) == Seq::<char>::empty());
            assert(out@ == before + template@.subrange(start as int, i as int) + command@);
            i = i + 2;
            start = i;
        } else {
            assert(rest.drop_first() == template@.subrange(i + 1, n as int));
            assert(template@.subrange(start as int, i + 1) == template@.subrange(start as int, i as int).push(template@[i as int]));
            proof {
                if rest.len() < 2 {
                    assert(rest == seq![template@[i as int]]);
                    assert(template@.subrange(i + 1, n as int) == Seq::<char>::empty());
                }
            }
            i = i + 1;
        }
    }
    out.append(template.substring_char(start, n));
    assert(template@.subrange(n as int, n as int) == Seq::<char>::empty());
    out
}


/// What to do with the user's choice.
#[derive(Debug)]
pub enum Action {
    /// The choice matched no entry: run it as a command, wait for it, and
    /// show its output and exit status.
    RunCommand(Invocation),
    /// Start the chosen entry's program, in `dir` where one is given, and do
    /// not wait for it.
    Launch { invocation: Invocation, dir: Option<String> },
}

/// The command line that launching `e` runs: its own, or, where it needs a
/// terminal and a terminal template is configured, the template with the
/// command line in place of each `{}`.
pub open spec fn launch_line(e: DesktopEntry, terminal: Option<Seq<char>>) -> Seq<char> {
    match terminal {
        Some(t) => if e.terminal {
            substituted(t, e.command_line@)
        } else {
            e.command_line@
        },
        None => e.command_line@,
    }
}

/// Whether `r` is what the choice `choice` calls for among `entries`
/// (shown under `t`), with the terminal template `terminal`: the first
/// visible entry showing the choice is launched; where none does, the choice
/// itself is run as a command.
pub open spec fn decided(
    entries: Seq<DesktopEntry>,
    t: EntryType,
    choice: Seq<char>,
    terminal: Option<Seq<char>>,
    r: Result<Action, LaunchError>,
) -> bool {
    match first_match(entries, t, choice) {
        None => if runnable(shell_words(choice)) {
            r matches Ok(Action::RunCommand(i)) && shell_words(choice) == Some(argv(i))
        } else {
            r matches Err(LaunchError::InvalidCommand)
        },
        Some(k) => {
            let e = entries[k];
            if e.terminal && (terminal matches Some(tt) && !has_placeholder(tt)) {
                r matches Err(LaunchError::InvalidTerminal)
            } else if runnable(shell_words(launch_line(e, terminal))) {
                &&& r is Ok
                &&& r->Ok_0 matches Action::Launch { invocation, dir }
                &&& shell_words(launch_line(e, terminal)) == Some(argv(r->Ok_0->invocation))
                &&& opt_view(r->Ok_0->dir) == opt_view(e.path)
            } else {
                r matches Err(LaunchError::InvalidExec)
            }
        },
    }
}

/// Decides what to do with `choice`, a line the picker returned without
/// white space at its ends, among `entries` as shown under `entry_type`.
pub fn plan_launch(
    entries: &Vec<DesktopEntry>,
    entry_type: EntryType,
    choice: &str,
    terminal: Option<&str>,
) -> (r: Result<Action, LaunchError>)
    ensures
        decided(entries@, entry_type, choice@, opt_str_view(terminal), r),
{
    match find_entry(entries, entry_type, choice) {
        None => match invocation_of(choice) {
            Some(i) => Ok(Action::RunCommand(i)),
            None => Err(LaunchError::InvalidCommand),
        },
        Some(k) => {
            let e = &entries[k];
            let line = match terminal {
                Some(t) => {
                    if e.terminal {
                        if !contains_placeholder(t) {
                            return Err(LaunchError::InvalidTerminal);
                        }
                        fill_template(t, e.command_line.as_str())
                    } else {
                        e.command_line.clone()
                    }
                },
                None => e.command_line.clone(),
            };
            match invocation_of(line.as_str()) {
                Some(invocation) => {
                    let dir = match &e.path {
                        Some(p) => Some(p.clone()),
                        None => None,
                    };
                    Ok(Action::Launch { invocation, dir })
                },
                None => Err(LaunchError::InvalidExec),
            }
        },
    }
}

/// Decides what to do with the picker's raw output: the output without
/// white space at its ends is the choice.
pub fn plan_for_output(
    entries: &Vec<DesktopEntry>,
    entry_type: EntryType,
    output: &str,
    terminal: Option<&str>,
) -> (r: Result<Action, LaunchError>)
    ensures
        decided(entries@, entry_type, trimmed(output@), opt_str_view(terminal), r),
{
    plan_launch(entries, entry_type, trim(output), terminal)
}

} // verus!
