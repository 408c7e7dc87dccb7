//! One launcher entry, decoded from the `Desktop Entry` section of a
//! registry file.

use ini::Ini;
use vstd::prelude::*;

use crate::text::{first_word, first_word_of, same_text};

verus! {

/// Declares `ini::Ini`, a decoded file, as a type whose insides the verifier
/// does not see; what the library reads of it goes through `ini_get`.
#[verifier::external_type_specification]
#[verifier::external_body]
pub struct ExIni(Ini);

/// What `Ini::get_from` finds in a decoded file: for a section name and a
/// key, the first value of that key in the first section of that name.
pub uninterp spec fn ini_lookup(i: Ini) -> Map<(Seq<char>, Seq<char>), Seq<char>>;

/// Relies on `ini::Ini::get_from`: the value of `key` in section `section`,
/// or `None` where the section or the key is missing.
#[verifier::external_body]
fn ini_get<'a>(ini: &'a Ini, section: &str, key: &str) -> (r: Option<&'a str>)
    ensures
        match r {
            Some(v) => ini_lookup(*ini).contains_key((section@, key@)) && ini_lookup(
                *ini,
            )[(section@, key@)] == v@,
            None => !ini_lookup(*ini).contains_key((section@, key@)),
        },
{
    ini.get_from(Some(section), key)
}

/// The value that a file declares for `key` in its `Desktop Entry` section.
pub open spec fn declared(i: Ini, key: Seq<char>) -> Option<Seq<char>> {
    if ini_lookup(i).contains_key(("Desktop Entry"@, key)) {
        Some(ini_lookup(i)[("Desktop Entry"@, key)])
    } else {
        None
    }
}

/// The view of an optional string.
pub open spec fn opt_view(o: Option<String>) -> Option<Seq<char>> {
    match o {
        Some(s) => Some(s@),
        None => None,
    }
}

fn declared_value<'a>(ini: &'a Ini, key: &str) -> (r: Option<&'a str>)
    ensures
        match r {
            Some(v) => declared(*ini, key@) == Some(v@),
            None => declared(*ini, key@) is None,
        },
{
    let section = "Desktop Entry";
    ini_get(ini, section, key)
}

/// Whether an optional declared value is exactly `true`.
pub open spec fn is_true(v: Option<Seq<char>>) -> bool {
    v == Some("true"@)
}

fn declared_true(ini: &Ini, key: &str) -> (r: bool)
    ensures
        r == is_true(declared(*ini, key@)),
{
    match declared_value(ini, key) {
        Some(v) => same_text(v, "true"),
        None => false,
    }
}

/// Whether the executable that an entry names for checking was found: an
/// entry without such a hint has nothing to check.
pub open spec fn exec_found(try_exec: Option<Seq<char>>, probe: bool) -> bool {
    try_exec is None || probe
}

/// Whether an entry is offered to the user, from its try-exec hint, what
/// probing that hint gave, and its `NoDisplay` and `Hidden` values.
pub open spec fn shown(
    try_exec: Option<Seq<char>>,
    probe: bool,
    no_display: Option<Seq<char>>,
    hidden: Option<Seq<char>>,
) -> bool {
    exec_found(try_exec, probe) && !is_true(no_display) && !is_true(hidden)
}

/// An entry that declares no try-exec hint counts as having its executable
/// found, whatever probing gave.
pub proof fn lemma_no_hint_found(i: Ini, probe: bool)
    requires
        declared(i, "TryExec"@) is None,
    ensures
        exec_found(declared(i, "TryExec"@), probe),
{
}

/// An entry that declares `NoDisplay` or `Hidden` as `true` is not offered,
/// whether or not its executable was found.
pub proof fn lemma_opted_out_not_shown(i: Ini, probe: bool)
    requires
        is_true(declared(i, "NoDisplay"@)) || is_true(declared(i, "Hidden"@)),
    ensures
        !shown(
            declared(i, "TryExec"@),
            probe,
            declared(i, "NoDisplay"@),
            declared(i, "Hidden"@),
        ),
{
}

/// Whether a decoded file describes an application entry: its type is
/// `Application`, and it has a name and a command line, neither empty.
pub open spec fn is_application(i: Ini) -> bool {
    &&& declared(i, "Type"@) == Some("Application"@)
    &&& declared(i, "Name"@) matches Some(n) && n.len() > 0
    &&& declared(i, "Exec"@) matches Some(x) && x.len() > 0
}

/// Which field of an entry is shown to the user and matched against the
/// choice.
#[derive(Clone, Copy, Debug, PartialEq, Eq)]
pub enum EntryType {
    Name,
    Command,
    Filename,
}

/// A resolved launcher entry.
#[derive(Clone, Debug)]
pub struct DesktopEntry {
    /// The label shown to the user.
    pub name: String,
    /// The registry file's name without its extension; the identifier.
    pub filename: String,
    /// The command line, as declared.
    pub command_line: String,
    /// Whether the entry is offered to the user.
    pub visible: bool,
    /// Whether the entry runs inside a terminal emulator.
    pub terminal: bool,
    /// The working directory to launch in, if any.
    pub path: Option<String>,
}

/// What `entry` shows under `entry_type`: its name, its identifier, or the
/// first word of its command line (its name where the command line has none).
pub open spec fn projected(entry: DesktopEntry, entry_type: EntryType) -> Seq<char> {
    match entry_type {
        EntryType::Name => entry.name@,
        EntryType::Filename => entry.filename@,
        EntryType::Command => if first_word_of(entry.command_line@).len() > 0 {
            first_word_of(entry.command_line@)
        } else {
            entry.name@
        },
    }
}

/// The try-exec hint that a decoded file declares, if any.
pub fn try_exec_hint(ini: &Ini) -> (r: Option<String>)
    ensures
        opt_view(r) == declared(*ini, "TryExec"@),
{
    match declared_value(ini, "TryExec") {
        Some(v) => Some(v.to_owned()),
        None => None,
    }
}

impl DesktopEntry {
    /// Builds the entry that the file `filename` (without extension) declares,
    /// or `None` where it is no application entry. `try_exec_found` tells
    /// whether the file's try-exec hint was found on disk; it is not read
    /// where the file declares no such hint.
    pub fn from_ini(filename: &str, ini: Ini, try_exec_found: bool) -> (r: Option<DesktopEntry>)
        ensures
            r is Some <==> is_application(ini),
            r matches Some(e) ==> {
                &&& Some(e.name@) == declared(ini, "Name"@)
                &&& e.filename@ == filename@
                &&& Some(e.command_line@) == declared(ini, "Exec"@)
                &&& e.terminal == is_true(declared(ini, "Terminal"@))
                &&& opt_view(e.path) == declared(ini, "Path"@)
                &&& e.visible == shown(
                    declared(ini, "TryExec"@),
                    try_exec_found,
                    declared(ini, "NoDisplay"@),
                    declared(ini, "Hidden"@),
                )
            },
    {
        let is_app = match declared_value(&ini, "Type") {
            Some(t) => same_text(t, "Application"),
            None => false,
        };
        if !is_app {
            return None;
        }
        let name = match declared_value(&ini, "Name") {
            Some(n) => n,
            None => return None,
        };
        let cmd = match declared_value(&ini, "Exec") {
            Some(x) => x,
            None => return None,
        };
        if name.unicode_len() == 0 || cmd.unicode_len() == 0 {
            return None;
        }
        let has_hint = match declared_value(&ini, "TryExec") {
            Some(_) => true,
            None => false,
        };
        let path = match declared_value(&ini, "Path") {
            Some(p) => Some(p.to_owned()),
            None => None,
        };
        let terminal = declared_true(&ini, "Terminal");
        let found = !has_hint || try_exec_found;
        let visible = found && !declared_true(&ini, "NoDisplay") && !declared_true(&ini, "Hidden");
        Some(
            DesktopEntry {
                name: name.to_owned(),
                filename: filename.to_owned(),
                command_line: cmd.to_owned(),
                visible,
                terminal,
                path,
            },
        )
    }

    /// A copy of this entry, field for field.
    pub fn duplicate(&self) -> (r: DesktopEntry)
        ensures
            r == *self,
    {
        DesktopEntry {
            name: self.name.clone(),
            filename: self.filename.clone(),
            command_line: self.command_line.clone(),
            visible: self.visible,
            terminal: self.terminal,
            path: match &self.path {
                Some(p) => Some(p.clone()),
                None => None,
            },
        }
    }

    /// The text this entry shows under `entry_type`.
    pub fn field(&self, entry_type: &EntryType) -> (r: &str)
        ensures
            r@ == projected(*self, *entry_type),
    {
        match entry_type {
            EntryType::Name => self.name.as_str(),
            EntryType::Filename => self.filename.as_str(),
            EntryType::Command => {
                let w = first_word(self.command_line.as_str());
                if w.unicode_len() > 0 {
                    w
                } else {
                    self.name.as_str()
                }
            },
        }
    }
}

} // verus!
