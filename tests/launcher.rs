use desktop_launcher::dirs::{desktop_stem, registry_dirs, try_exec_candidates};
use desktop_launcher::entry::{try_exec_hint, DesktopEntry, EntryType};
use desktop_launcher::error::LaunchError;
use desktop_launcher::launch::{
    contains_placeholder, fill_template, invocation_of, plan_for_output, plan_launch, plan_picker,
    Action,
};
use desktop_launcher::listing::{find_entry, listing, sort_entries};
use desktop_launcher::registry::Registry;
use desktop_launcher::text::{first_word, join_path, split_on, trim};
use ini::Ini;

fn ini_of(body: &str) -> Ini {
    Ini::load_from_str(&format!("[Desktop Entry]\n{}", body)).unwrap()
}

fn entry(id: &str, name: &str, exec: &str, visible: bool) -> DesktopEntry {
    DesktopEntry {
        name: name.to_string(),
        filename: id.to_string(),
        command_line: exec.to_string(),
        visible,
        terminal: false,
        path: None,
    }
}

fn names(v: &[DesktopEntry]) -> Vec<String> {
    v.iter().map(|e| e.name.clone()).collect()
}

#[test]
fn decodes_application_entry() {
    let ini = ini_of("Type=Application\nName=Editor\nExec=gedit %U\nPath=/tmp\nTerminal=true\n");
    let e = DesktopEntry::from_ini("org.gnome.gedit", ini, false).unwrap();
    assert_eq!(e.name, "Editor");
    assert_eq!(e.filename, "org.gnome.gedit");
    assert_eq!(e.command_line, "gedit %U");
    assert!(e.terminal);
    assert!(e.visible);
    assert_eq!(e.path, Some("/tmp".to_string()));
}

#[test]
fn rejects_non_applications_and_missing_fields() {
    let link = ini_of("Type=Link\nName=Site\nExec=x\n");
    assert!(DesktopEntry::from_ini("a", link, true).is_none());
    let no_name = ini_of("Type=Application\nExec=x\n");
    assert!(DesktopEntry::from_ini("a", no_name, true).is_none());
    let empty_exec = ini_of("Type=Application\nName=A\nExec=\n");
    assert!(DesktopEntry::from_ini("a", empty_exec, true).is_none());
    let other_section = Ini::load_from_str("[Other]\nType=Application\nName=A\nExec=x\n").unwrap();
    assert!(DesktopEntry::from_ini("a", other_section, true).is_none());
}

#[test]
fn terminal_needs_exact_true() {
    let ini = ini_of("Type=Application\nName=A\nExec=a\nTerminal=True\n");
    let e = DesktopEntry::from_ini("a", ini, true).unwrap();
    assert!(!e.terminal);
    assert_eq!(e.path, None);
}

#[test]
fn no_try_exec_means_found() {
    let ini = ini_of("Type=Application\nName=A\nExec=a\n");
    assert_eq!(try_exec_hint(&ini), None);
    let e = DesktopEntry::from_ini("a", ini, false).unwrap();
    assert!(e.visible);
}

#[test]
fn no_display_or_hidden_hides() {
    let nd = ini_of("Type=Application\nName=A\nExec=a\nNoDisplay=true\n");
    assert!(!DesktopEntry::from_ini("a", nd, true).unwrap().visible);
    let hidden = ini_of("Type=Application\nName=A\nExec=a\nHidden=true\nTryExec=/bin/sh\n");
    assert!(!DesktopEntry::from_ini("a", hidden, true).unwrap().visible);
    let shown = ini_of("Type=Application\nName=A\nExec=a\nNoDisplay=false\n");
    assert!(DesktopEntry::from_ini("a", shown, true).unwrap().visible);
}

#[test]
fn missing_try_exec_target_hides_entry() {
    let ini = ini_of("Type=Application\nName=Ghost\nExec=ghost\nTryExec=/nonexistent/bin\n");
    assert_eq!(try_exec_hint(&ini), Some("/nonexistent/bin".to_string()));
    let probes = try_exec_candidates("/nonexistent/bin", Some("/usr/bin:/bin/"));
    assert_eq!(probes, vec!["/nonexistent/bin", "/usr/bin/bin", "/bin/bin"]);
    let e = DesktopEntry::from_ini("ghost", ini, false).unwrap();
    assert!(!e.visible);
    let shown = vec![e, entry("b", "Browser", "firefox", true)];
    assert_eq!(listing(&shown, EntryType::Name), "Browser\n");
}

#[test]
fn try_exec_candidates_edges() {
    assert_eq!(try_exec_candidates("tool", None), vec!["tool"]);
    assert_eq!(try_exec_candidates("dir/", Some("/usr/bin")), vec!["dir/"]);
    assert_eq!(try_exec_candidates("tool", Some("")), vec!["tool", "tool"]);
}

#[test]
fn first_directory_wins() {
    let a = vec![entry("foo", "Foo A", "fooa", true)];
    let b = vec![entry("foo", "Foo B", "foob", false), entry("bar", "Bar", "bar", true)];
    let reg = Registry::merge(&vec![a, b]);
    let kept = reg.entries();
    assert_eq!(kept.len(), 2);
    assert_eq!(kept[0].name, "Foo A");
    assert!(kept[0].visible);
    assert_eq!(kept[1].filename, "bar");
}

#[test]
fn first_wins_even_when_hidden() {
    let a = vec![entry("foo", "Foo A", "fooa", false)];
    let b = vec![entry("foo", "Foo B", "foob", true)];
    let reg = Registry::merge(&vec![a, b]);
    assert_eq!(names(reg.entries()), vec!["Foo A"]);
}

#[test]
fn insert_reports_duplicates() {
    let mut reg = Registry::new();
    assert!(reg.insert(entry("x", "X", "x", true)));
    assert!(!reg.insert(entry("x", "Y", "y", true)));
    assert!(reg.contains("x"));
    assert!(!reg.contains("X"));
}

#[test]
fn sort_is_case_insensitive_and_stable() {
    let v = vec![
        entry("1", "bash", "bash", true),
        entry("2", "Zsh", "zsh", true),
        entry("3", "Bash", "bash", true),
        entry("4", "apple", "apple", true),
    ];
    let sorted = sort_entries(&v);
    assert_eq!(names(&sorted), vec!["apple", "bash", "Bash", "Zsh"]);
    let ids: Vec<String> = sorted.iter().map(|e| e.filename.clone()).collect();
    assert_eq!(ids, vec!["4", "1", "3", "2"]);
}

#[test]
fn sort_lowercases_before_comparing() {
    let v = vec![entry("1", "B", "b", true), entry("2", "a", "a", true)];
    assert_eq!(names(&sort_entries(&v)), vec!["a", "B"]);
    let p = vec![entry("1", "ab", "x", true), entry("2", "a", "x", true)];
    assert_eq!(names(&sort_entries(&p)), vec!["a", "ab"]);
    assert!(sort_entries(&vec![]).is_empty());
}

#[test]
fn identifier_round_trip() {
    let v = vec![
        entry("one", "Same", "a", true),
        entry("two", "Same", "b", true),
        entry("three", "Other", "c", false),
    ];
    for (k, e) in v.iter().enumerate() {
        if e.visible {
            let shown = e.field(&EntryType::Filename).to_string();
            assert_eq!(find_entry(&v, EntryType::Filename, &shown), Some(k));
        }
    }
    assert_eq!(find_entry(&v, EntryType::Filename, "three"), None);
    assert_eq!(find_entry(&v, EntryType::Name, "Same"), Some(0));
}

#[test]
fn fields_by_type() {
    let e = entry("org.x", "X Editor", "  xed\t--new %F", true);
    assert_eq!(e.field(&EntryType::Name), "X Editor");
    assert_eq!(e.field(&EntryType::Filename), "org.x");
    assert_eq!(e.field(&EntryType::Command), "xed");
    let blank = entry("b", "Blank", "   ", true);
    assert_eq!(blank.field(&EntryType::Command), "Blank");
}

#[test]
fn listing_without_picker() {
    let v = vec![
        entry("a", "Alpha", "alpha --x", true),
        entry("h", "Hidden", "h", false),
        entry("b", "Beta", "beta", true),
    ];
    assert_eq!(plan_picker(None).unwrap().is_none(), true);
    assert_eq!(listing(&v, EntryType::Name), "Alpha\nBeta\n");
    assert_eq!(listing(&v, EntryType::Command), "alpha\nbeta\n");
    assert_eq!(listing(&v, EntryType::Filename), "a\nb\n");
    assert_eq!(listing(&vec![], EntryType::Name), "");
}

#[test]
fn picker_invocation() {
    let inv = plan_picker(Some("dmenu -i -p 'Run:'")).unwrap().unwrap();
    assert_eq!(inv.program, "dmenu");
    assert_eq!(inv.args, vec!["-i", "-p", "Run:"]);
    assert!(matches!(plan_picker(Some("dmenu 'open")), Err(LaunchError::InvalidPicker)));
    assert!(matches!(plan_picker(Some("   ")), Err(LaunchError::InvalidPicker)));
}

#[test]
fn unmatched_choice_runs_as_command() {
    let v = vec![entry("a", "Alpha", "alpha", true)];
    match plan_for_output(&v, EntryType::Name, "echo hi\n", None).unwrap() {
        Action::RunCommand(i) => {
            assert_eq!(i.program, "echo");
            assert_eq!(i.args, vec!["hi"]);
        }
        other => panic!("unexpected {:?}", other),
    }
}

#[test]
fn hidden_entries_are_not_matched() {
    let v = vec![entry("h", "Hidden", "hidden-app", false)];
    match plan_launch(&v, EntryType::Name, "Hidden", None).unwrap() {
        Action::RunCommand(i) => assert_eq!(i.program, "Hidden"),
        other => panic!("unexpected {:?}", other),
    }
}

#[test]
fn invalid_chosen_command() {
    let v = vec![entry("a", "Alpha", "alpha", true)];
    assert!(matches!(plan_launch(&v, EntryType::Name, "echo 'x", None), Err(LaunchError::InvalidCommand)));
    assert!(matches!(plan_for_output(&v, EntryType::Name, " \n", None), Err(LaunchError::InvalidCommand)));
}

#[test]
fn terminal_template_wraps_command() {
    let mut e = entry("htop", "Htop", "htop", true);
    e.terminal = true;
    e.path = Some("/home/u".to_string());
    let v = vec![e];
    match plan_for_output(&v, EntryType::Name, "Htop\n", Some("xterm -e {}")).unwrap() {
        Action::Launch { invocation, dir } => {
            assert_eq!(invocation.program, "xterm");
            assert_eq!(invocation.args, vec!["-e", "htop"]);
            assert_eq!(dir, Some("/home/u".to_string()));
        }
        other => panic!("unexpected {:?}", other),
    }
}

#[test]
fn terminal_template_ignored_without_terminal_flag() {
    let v = vec![entry("vim", "Vim", "vim \"my file\"", true)];
    match plan_launch(&v, EntryType::Name, "Vim", Some("xterm -e")).unwrap() {
        Action::Launch { invocation, dir } => {
            assert_eq!(invocation.program, "vim");
            assert_eq!(invocation.args, vec!["my file"]);
            assert_eq!(dir, None);
        }
        other => panic!("unexpected {:?}", other),
    }
}

#[test]
fn template_without_placeholder_is_fatal() {
    let mut e = entry("htop", "Htop", "htop", true);
    e.terminal = true;
    let v = vec![e];
    assert!(matches!(
        plan_launch(&v, EntryType::Name, "Htop", Some("xterm -e")),
        Err(LaunchError::InvalidTerminal)
    ));
}

#[test]
fn invalid_exec_key() {
    let v = vec![entry("bad", "Bad", "run 'unclosed", true)];
    assert!(matches!(plan_launch(&v, EntryType::Name, "Bad", None), Err(LaunchError::InvalidExec)));
}

#[test]
fn template_filling() {
    assert!(contains_placeholder("st -e {}"));
    assert!(!contains_placeholder("st -e { }"));
    assert!(!contains_placeholder(""));
    assert_eq!(fill_template("a {} b {}", "x y"), "a x y b x y");
    assert_eq!(fill_template("{{}}", "c"), "{c}");
    assert_eq!(fill_template("plain", "c"), "plain");
}

#[test]
fn shell_words_split() {
    let i = invocation_of("a 'b c' d\\ e").unwrap();
    assert_eq!(i.program, "a");
    assert_eq!(i.args, vec!["b c", "d e"]);
    assert!(invocation_of("").is_none());
    assert!(invocation_of("x \"y").is_none());
}

#[test]
fn registry_directories() {
    let d = registry_dirs(Some("/data"), Some("/home/u"), Some("/a:/b/")).unwrap();
    assert_eq!(d, vec!["/data/applications", "/a/applications", "/b/applications"]);
    let d = registry_dirs(None, Some("/home/u"), None).unwrap();
    assert_eq!(
        d,
        vec![
            "/home/u/.local/share/applications",
            "/usr/local/share/applications",
            "/usr/share/applications"
        ]
    );
    assert!(matches!(registry_dirs(None, None, None), Err(LaunchError::NoHomeDirectory)));
}

#[test]
fn registry_file_stems() {
    assert_eq!(desktop_stem("firefox.desktop"), Some("firefox"));
    assert_eq!(desktop_stem("a.b.desktop"), Some("a.b"));
    assert_eq!(desktop_stem(".desktop"), None);
    assert_eq!(desktop_stem("notes.txt"), None);
    assert_eq!(desktop_stem("firefox.Desktop"), None);
}

#[test]
fn text_helpers() {
    assert_eq!(join_path("/a", "b"), "/a/b");
    assert_eq!(join_path("/a/", "b"), "/a/b");
    assert_eq!(join_path("", "b"), "b");
    assert_eq!(join_path("/a", "/b"), "/b");
    assert_eq!(split_on("a::b", ':'), vec!["a", "", "b"]);
    assert_eq!(split_on("", ':'), vec![""]);
    assert_eq!(trim("\t Firefox \n"), "Firefox");
    assert_eq!(trim("\u{3000}x\u{a0}"), "x");
    assert_eq!(first_word("\n vim -p"), "vim");
}
