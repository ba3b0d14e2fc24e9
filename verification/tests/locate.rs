use dsh_launcher::candidate::{dedupe, make_candidate, parse_version, sort_candidates, version_cmp, DshCandidate, Source};
use dsh_launcher::launch::AppSettings;
use dsh_launcher::locate::{
    augmented_path, detect_version, dsh_files, extract_path_exports, find_dsh_executables,
    first_regular_file, locate, parse_path_files, shebang_lookup, shebang_program_of,
    which_candidate_paths, which_in, zsh_login_locate, LocateAction, LocateEvent, ShebangLookup,
};
use std::cmp::Ordering;

#[test]
fn parses_path_exports_with_prepended_var() {
    let text = r#"
export PATH="$HOME/bin:$PATH"
export PATH=/usr/local/bin:/opt/homebrew/bin
# export PATH=ignored
export FOO=bar
"#;
    let entries = extract_path_exports(text);
    assert_eq!(
        entries,
        vec!["$HOME/bin".to_string(), "/usr/local/bin".to_string(), "/opt/homebrew/bin".to_string(),]
    );
}

#[test]
fn parses_path_with_braces_and_comment() {
    let text = "export PATH=\"${HOME}/.cargo/bin:/usr/bin\" # comment";
    let entries = extract_path_exports(text);
    assert_eq!(entries, vec!["${HOME}/.cargo/bin".to_string(), "/usr/bin".to_string()]);
}

#[test]
fn version_ordering_higher_first() {
    assert_eq!(version_cmp("0.1.0-rc.7", "0.1.0-rc.5"), Ordering::Greater);
    assert_eq!(version_cmp("0.2.0", "0.1.9"), Ordering::Greater);
    assert_eq!(version_cmp("0.1.0", "0.1.0"), Ordering::Equal);
}

#[test]
fn pre_release_orders_below_its_release() {
    assert_eq!(version_cmp("0.1.0-rc.7", "0.1.0"), Ordering::Less);
    assert_eq!(version_cmp("0.1.0", "0.1.0-rc.7"), Ordering::Greater);
    assert_eq!(version_cmp("0.1.1-rc.1", "0.1.0"), Ordering::Greater);
    assert_eq!(version_cmp("1.2.3-beta", "1.2.3-alpha"), Ordering::Greater);
    assert_eq!(version_cmp("1.2.3-rc.1", "1.2.3-rc.1"), Ordering::Equal);
}

fn cand(exe: &str, version: &str, source: Source) -> DshCandidate {
    DshCandidate { executable: exe.to_string(), node: None, version: version.into(), source }
}

#[test]
fn sort_puts_user_specified_and_higher_version_first() {
    let mut v = vec![
        cand("/a/dsh", "0.1.0", Source::Scanned),
        cand("/b/dsh", "0.2.0", Source::Scanned),
        cand("/c/dsh", "0.1.0", Source::UserSpecified),
    ];
    sort_candidates(&mut v);
    assert_eq!(v[0].source, Source::UserSpecified);
    assert_eq!(v[1].executable, "/b/dsh".to_string());
}

#[test]
fn sort_is_stable_for_equal_candidates() {
    let mut v = vec![
        cand("/a/dsh", "1.0.0", Source::PathFile),
        cand("/b/dsh", "1.0.0", Source::PathFile),
        cand("/c/dsh", "1.0.0", Source::ZshLogin),
    ];
    sort_candidates(&mut v);
    assert_eq!(v[0].executable, "/a/dsh");
    assert_eq!(v[1].executable, "/b/dsh");
    assert_eq!(v[2].executable, "/c/dsh");
}

#[test]
fn sort_ranks_releases_above_their_pre_releases() {
    let mut v = vec![
        cand("/rc/dsh", "0.1.0-rc.7", Source::Scanned),
        cand("/old/dsh", "0.1.0", Source::Scanned),
        cand("/new/dsh", "0.2.0-rc.1", Source::Scanned),
        cand("/zsh/dsh", "9.9.9", Source::ZshLogin),
    ];
    sort_candidates(&mut v);
    let order: Vec<&str> = v.iter().map(|c| c.executable.as_str()).collect();
    assert_eq!(order, vec!["/new/dsh", "/old/dsh", "/rc/dsh", "/zsh/dsh"]);
}

#[test]
fn parses_version_token() {
    assert_eq!(parse_version("0.1.0-rc.7").as_deref(), Some("0.1.0-rc.7"));
    assert_eq!(parse_version("dsh 0.1.0-rc.7 (rc)").as_deref(), Some("0.1.0-rc.7"));
    assert_eq!(parse_version("no version here").as_deref(), None);
}

#[test]
fn dedupe_keeps_first_occurrence() {
    let mut v = vec![
        cand("/a/dsh", "1", Source::Scanned),
        cand("/b/dsh", "2", Source::Scanned),
        cand("/a/dsh", "3", Source::PathFile),
    ];
    dedupe(&mut v);
    assert_eq!(v.len(), 2);
    assert_eq!(v[0].version, "1");
    assert_eq!(v[1].executable, "/b/dsh");
}

#[test]
fn make_candidate_defaults_version() {
    let c = make_candidate("/a/dsh".to_string(), None, Source::Scanned, None);
    assert_eq!(c.version, "unknown");
    assert_eq!(Source::PathFile.as_str(), "path-file");
    assert_eq!(Source::ZshLogin.priority(), 3);
}

#[test]
fn dsh_executables_in_dirs() {
    let r = find_dsh_executables(&vec!["/nonexistent-a/bin".to_string(), "/nonexistent-b/".to_string()]);
    assert!(r.is_empty());
}

#[test]
fn dsh_files_keeps_flagged_dirs_in_order() {
    let dirs = vec!["/a".to_string(), "/b/".to_string(), "/c".to_string()];
    assert_eq!(dsh_files(&dirs, &vec![true, false, true]), vec!["/a/dsh".to_string(), "/c/dsh".to_string()]);
    assert!(dsh_files(&dirs, &vec![false, false, false]).is_empty());
}

#[test]
fn which_tries_each_path_entry_in_order() {
    let c = which_candidate_paths("node", "/usr/bin: :/opt/n/bin/::  /x  ");
    assert_eq!(c, vec!["/usr/bin/node".to_string(), "/opt/n/bin/node".to_string(), "/x/node".to_string()]);
    assert!(which_candidate_paths("node", "").is_empty());
    assert_eq!(first_regular_file(&c, &vec![false, true, true]).as_deref(), Some("/opt/n/bin/node"));
    assert_eq!(first_regular_file(&c, &vec![false, false, false]), None);
    assert_eq!(which_in("node", ""), None);
    assert_eq!(which_in("definitely-not-a-program", "/nonexistent-dir-a:/nonexistent-dir-b"), None);
}

#[test]
fn shebang_lookup_names_what_to_search() {
    match shebang_lookup(b"#!/usr/bin/env node\n", "/a:/b") {
        ShebangLookup::Found(p) => assert_eq!(p, "/usr/bin/env"),
        other => panic!("unexpected {:?}", other),
    }
    match shebang_lookup(b"#! env node\n", "/a: /b ") {
        ShebangLookup::Search(c) => assert_eq!(c, vec!["/a/env".to_string(), "/b/env".to_string()]),
        other => panic!("unexpected {:?}", other),
    }
    match shebang_lookup(b"#! bin/env node\n", "/a") {
        ShebangLookup::Search(c) => assert_eq!(c, vec!["/a/node".to_string()]),
        other => panic!("unexpected {:?}", other),
    }
    assert!(matches!(shebang_lookup(b"echo hi\n", "/a"), ShebangLookup::NoInterpreter));
}

#[test]
fn path_files_expand_home() {
    let texts = vec!["export PATH=\"~/bin:$PATH\"".to_string(), "PATH=$HOME/x:/opt/y\n".to_string()];
    let dirs = parse_path_files(&texts, "/Users/t");
    assert_eq!(dirs, vec!["/Users/t/bin".to_string(), "$HOME/x".to_string(), "/opt/y".to_string()]);
}

#[test]
fn shebang_and_version_output() {
    assert_eq!(shebang_program_of("#!/usr/bin/env node\nconsole.log(1)").as_deref(), Some("/usr/bin/env"));
    assert_eq!(shebang_program_of("#! bin/env node\n").as_deref(), Some("node"));
    assert_eq!(shebang_program_of("#! env node\n").as_deref(), Some("env"));
    assert_eq!(shebang_program_of("#!/opt/bin/node\n").as_deref(), Some("/opt/bin/node"));
    assert_eq!(shebang_program_of("no shebang"), None);
    assert_eq!(detect_version(b"  \n", b"dsh v0.3.1\n").as_deref(), Some("0.3.1"));
    assert_eq!(detect_version(b"0.1.0\n", b"").as_deref(), Some("0.1.0"));
    assert_eq!(zsh_login_locate(b"/opt/homebrew/bin/dsh\n").as_deref(), Some("/opt/homebrew/bin/dsh"));
    assert_eq!(zsh_login_locate(b"  \n"), None);
}

#[test]
fn augmented_path_appends_missing_dirs() {
    let p = augmented_path("/usr/bin".to_string(), &vec!["/usr/bin".to_string(), "/opt/x".to_string()], "/h");
    assert!(p.starts_with("/usr/bin"));
    assert!(p.split(':').any(|e| e == "/opt/x"));
    assert_eq!(p.split(':').filter(|e| *e == "/usr/bin").count(), 1);
}

#[test]
fn explicit_path_becomes_primary() {
    let settings = AppSettings { dsh_path: Some("/x/dsh".to_string()), ..Default::default() };
    let mut l = locate(&settings, "/Users/t");
    let mut a = l.advance(LocateEvent::Start);
    let mut steps = 0;
    loop {
        steps += 1;
        assert!(steps < 1000);
        let ev = match a {
            LocateAction::CheckFile(ref p) => LocateEvent::IsFile(p == "/x/dsh"),
            LocateAction::ReadShebang(_) => LocateEvent::Shebang(ShebangLookup::Found("/x/node".to_string())),
            LocateAction::CheckInterpreters(ref c) => LocateEvent::InterpreterFiles(vec![false; c.len()]),
            LocateAction::DetectVersion { .. } => LocateEvent::Version(Some("0.1.0".to_string())),
            LocateAction::ReadPathFiles => LocateEvent::PathDirs(vec![]),
            LocateAction::AskZsh => LocateEvent::ZshFound(None),
            LocateAction::Finish(outcome) => {
                let p = outcome.primary.unwrap();
                assert_eq!(p.executable, "/x/dsh");
                assert_eq!(p.source, Source::UserSpecified);
                assert_eq!(p.node.as_deref(), Some("/x/node"));
                break;
            }
        };
        a = l.advance(ev);
    }
}

#[test]
fn relative_interpreter_is_searched_along_path() {
    let settings = AppSettings { dsh_path: Some("/x/dsh".to_string()), ..Default::default() };
    let mut l = locate(&settings, "/Users/t");
    let mut a = l.advance(LocateEvent::Start);
    let mut asked = Vec::new();
    let mut steps = 0;
    loop {
        steps += 1;
        assert!(steps < 1000);
        let ev = match a {
            LocateAction::CheckFile(ref p) => LocateEvent::IsFile(p == "/x/dsh"),
            LocateAction::ReadShebang(_) => LocateEvent::Shebang(shebang_lookup(b"#! env node\n", "/a:/b:/c")),
            LocateAction::CheckInterpreters(ref c) => {
                asked = c.clone();
                LocateEvent::InterpreterFiles(vec![false, true, true])
            }
            LocateAction::DetectVersion { ref node, .. } => {
                assert_eq!(node.as_deref(), Some("/b/env"));
                LocateEvent::Version(None)
            }
            LocateAction::ReadPathFiles => LocateEvent::PathDirs(vec![]),
            LocateAction::AskZsh => LocateEvent::ZshFound(None),
            LocateAction::Finish(outcome) => {
                let p = outcome.primary.unwrap();
                assert_eq!(p.node.as_deref(), Some("/b/env"));
                assert_eq!(p.version, "unknown");
                break;
            }
        };
        a = l.advance(ev);
    }
    assert_eq!(asked, vec!["/a/env".to_string(), "/b/env".to_string(), "/c/env".to_string()]);
}

#[test]
fn missing_explicit_path_falls_back_to_scan() {
    let settings = AppSettings { dsh_path: Some("/missing/dsh".to_string()), ..Default::default() };
    let mut l = locate(&settings, "/Users/t");
    let mut a = l.advance(LocateEvent::Start);
    let mut steps = 0;
    loop {
        steps += 1;
        assert!(steps < 1000);
        let ev = match a {
            LocateAction::CheckFile(ref p) => LocateEvent::IsFile(p == "/usr/local/bin/dsh"),
            LocateAction::ReadShebang(_) => LocateEvent::Shebang(ShebangLookup::NoInterpreter),
            LocateAction::CheckInterpreters(ref c) => LocateEvent::InterpreterFiles(vec![false; c.len()]),
            LocateAction::DetectVersion { .. } => LocateEvent::Version(Some("0.3.0".to_string())),
            LocateAction::ReadPathFiles => LocateEvent::PathDirs(vec!["/usr/local/bin".to_string()]),
            LocateAction::AskZsh => LocateEvent::ZshFound(Some("/usr/local/bin/dsh".to_string())),
            LocateAction::Finish(outcome) => {
                assert_eq!(outcome.candidates.len(), 1);
                let p = outcome.primary.unwrap();
                assert_eq!(p.executable, "/usr/local/bin/dsh");
                assert_eq!(p.source, Source::Scanned);
                break;
            }
        };
        a = l.advance(ev);
    }
}
