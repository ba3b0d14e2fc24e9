use dsh_launcher::archive::{
    archive_op_response, check_workspace_doc, delete_archived, eligible_ids, is_safe_session_id,
    prune_workspace_session_refs, remove_from_archived, restore_archived, safe_dir_name,
    validate_ids, DirRemoval, DirResult,
};
use dsh_launcher::archive::{deletion_targets, session_dirs, RootEntry};
use dsh_launcher::json::{get_member, Json, JsonMember};

fn s(x: &str) -> Json {
    Json::Str(x.to_string())
}

fn arr(xs: &[&str]) -> Json {
    Json::Array(xs.iter().map(|x| s(x)).collect())
}

fn obj(members: Vec<(&str, Json)>) -> Json {
    Json::Object(members.into_iter().map(|(k, v)| JsonMember { key: k.to_string(), value: v }).collect())
}

fn make_doc(archived: &[&str], tables: &[(&str, &[&str])]) -> Json {
    let workspaces = obj(
        tables
            .iter()
            .map(|(id, sessions)| {
                (
                    *id,
                    obj(vec![
                        ("path", s(&format!("/tmp/{}", id))),
                        ("title", s(id)),
                        ("sessionIds", arr(sessions)),
                        ("createdAt", s("t")),
                        ("updatedAt", s("t")),
                    ]),
                )
            })
            .collect(),
    );
    obj(vec![
        ("unit", obj(vec![("name", s("workspace")), ("version", Json::Number("2".to_string()))])),
        (
            "global",
            obj(vec![
                ("initialized", Json::Bool(true)),
                ("workspaceIds", arr(&["w1", "w2"])),
                ("archivedSessionIds", arr(archived)),
            ]),
        ),
        ("tables", obj(vec![("workspaces", workspaces)])),
    ])
}

fn at<'a>(v: &'a Json, path: &[&str]) -> &'a Json {
    let mut cur = v;
    for k in path {
        cur = get_member(cur, k).unwrap();
    }
    cur
}

fn strings(v: &Json) -> Vec<String> {
    match v {
        Json::Array(items) => items
            .iter()
            .map(|x| match x {
                Json::Str(t) => t.clone(),
                _ => panic!("not a string"),
            })
            .collect(),
        _ => panic!("not an array"),
    }
}

fn ids(xs: &[&str]) -> Vec<String> {
    xs.iter().map(|x| x.to_string()).collect()
}

#[test]
fn remove_from_archived_filters_only_targets() {
    let mut doc = make_doc(&["session-a", "session-b", "session-c"], &[("w1", &["session-a", "session-b"])]);
    let removed = remove_from_archived(&mut doc, &["session-b".to_string(), "session-nope".to_string()]).unwrap();
    assert_eq!(removed, 1);
    let archived = strings(at(&doc, &["global", "archivedSessionIds"]));
    assert_eq!(archived, vec!["session-a", "session-c"]);
    // untouched structure preserved
    assert_eq!(strings(at(&doc, &["global", "workspaceIds"]))[1], "w2");
    assert_eq!(strings(at(&doc, &["tables", "workspaces", "w1", "sessionIds"]))[1], "session-b");
}

#[test]
fn prune_removes_membership_references() {
    let mut doc = make_doc(
        &["session-a", "session-b"],
        &[("w1", &["session-a", "session-x"]), ("w2", &["session-b"])],
    );
    let pruned = prune_workspace_session_refs(&mut doc, &["session-a".to_string()]).unwrap();
    assert_eq!(pruned, 1);
    assert_eq!(strings(at(&doc, &["tables", "workspaces", "w1", "sessionIds"]))[0], "session-x");
    // untouched workspace
    assert_eq!(strings(at(&doc, &["tables", "workspaces", "w2", "sessionIds"]))[0], "session-b");
}

#[test]
fn unsafe_ids_rejected() {
    let doc = || Ok(make_doc(&["session-a"], &[]));
    assert!(restore_archived("/tmp", &["../../etc/passwd".to_string()], doc()).is_err());
    assert!(delete_archived("/tmp", &["not-a-session".to_string()], doc(), &vec![]).is_err());
    assert!(restore_archived("/tmp", &[], doc()).is_err());
    assert!(is_safe_session_id("session-060f2d73-6ee7"));
}

#[test]
fn validation_messages() {
    assert_eq!(validate_ids(&[]).unwrap_err(), "未选择任何会话");
    assert_eq!(validate_ids(&ids(&["session-a", "session-../x"])).unwrap_err(), "非法的会话 id: session-../x");
    assert!(validate_ids(&ids(&["session-a", "session-B-9"])).is_ok());
    assert_eq!(safe_dir_name("session-a").as_deref(), Some("session-a"));
    assert_eq!(safe_dir_name("session-a/b"), None);
    let long = format!("session-{}", "a".repeat(121));
    assert!(!is_safe_session_id(&long));
    assert!(is_safe_session_id(&long[..long.len() - 1]));
}

#[test]
fn malformed_registry_is_refused() {
    let no_global = obj(vec![("tables", obj(vec![]))]);
    assert_eq!(check_workspace_doc(&no_global, "/h/ws.json").unwrap_err(), "/h/ws.json 缺少 global 对象");
    let no_array = obj(vec![("global", obj(vec![("archivedSessionIds", s("x"))]))]);
    assert_eq!(
        check_workspace_doc(&no_array, "/h/ws.json").unwrap_err(),
        "/h/ws.json 缺少 archivedSessionIds 数组"
    );
    let e = restore_archived("/h", &ids(&["session-a"]), Ok(no_global)).unwrap_err();
    assert_eq!(e, "/h/storages/workspace.json 缺少 global 对象");
    let e = restore_archived("/h", &ids(&["session-a"]), Err("无法读取 x".to_string())).unwrap_err();
    assert_eq!(e, "无法读取 x");
}

#[test]
fn restore_edits_only_the_archived_set() {
    let doc = make_doc(&["session-a", "session-b"], &[("w1", &["session-a"])]);
    let edit = restore_archived("/h", &ids(&["session-a", "session-b"]), Ok(doc)).unwrap();
    assert_eq!(edit.report.changed_archive, 2);
    assert_eq!(edit.report.processed, 2);
    let updated = edit.updated.unwrap();
    assert!(strings(at(&updated, &["global", "archivedSessionIds"])).is_empty());
    assert_eq!(strings(at(&updated, &["tables", "workspaces", "w1", "sessionIds"]))[0], "session-a");
}

#[test]
fn restore_of_unarchived_ids_writes_nothing() {
    let doc = make_doc(&["session-a"], &[]);
    let edit = restore_archived("/h", &ids(&["session-z"]), Ok(doc)).unwrap();
    assert_eq!(edit.report.processed, 1);
    assert_eq!(edit.report.changed_archive, 0);
    assert!(edit.updated.is_none());
}

#[test]
fn delete_prunes_and_reports_dirs() {
    let doc = make_doc(&["session-a", "session-b"], &[("w1", &["session-a", "session-b"])]);
    let el = eligible_ids(&doc, &ids(&["session-a"]));
    assert_eq!(el, vec!["session-a".to_string()]);
    let removals = vec![DirRemoval {
        id: "session-a".to_string(),
        dirs: vec![
            DirResult { dir: "/s/w/session-a".to_string(), error: None },
            DirResult { dir: "/s/session-a".to_string(), error: Some("denied".to_string()) },
        ],
    }];
    let edit = delete_archived("/h", &ids(&["session-a"]), Ok(doc), &removals).unwrap();
    assert_eq!(edit.report.deleted_dirs, 1);
    assert_eq!(edit.report.warnings, vec!["删除 /s/session-a 失败: denied".to_string()]);
    assert!(edit.report.missing_dirs.is_empty());
    assert_eq!(edit.report.changed_archive, 1);
    assert_eq!(edit.report.pruned_session_refs, 1);
    let updated = edit.updated.unwrap();
    assert_eq!(strings(at(&updated, &["global", "archivedSessionIds"])), vec!["session-b"]);
    assert_eq!(strings(at(&updated, &["tables", "workspaces", "w1", "sessionIds"])), vec!["session-b"]);
}

#[test]
fn delete_tolerates_missing_dirs_in_report() {
    let doc = make_doc(&["session-ghost"], &[]);
    let removals = vec![DirRemoval { id: "session-ghost".to_string(), dirs: vec![] }];
    let edit = delete_archived("/h", &ids(&["session-ghost"]), Ok(doc), &removals).unwrap();
    assert_eq!(edit.report.missing_dirs, vec!["session-ghost".to_string()]);
    assert_eq!(edit.report.changed_archive, 1);
    assert!(strings(at(edit.updated.as_ref().unwrap(), &["global", "archivedSessionIds"])).is_empty());
}

#[test]
fn removing_twice_removes_nothing() {
    let mut doc = make_doc(&["session-a", "session-b"], &[]);
    assert_eq!(remove_from_archived(&mut doc, &ids(&["session-a"])).unwrap(), 1);
    assert_eq!(remove_from_archived(&mut doc, &ids(&["session-a"])).unwrap(), 0);
    assert_eq!(strings(at(&doc, &["global", "archivedSessionIds"])), vec!["session-b"]);
    let mut bad = obj(vec![]);
    assert_eq!(
        remove_from_archived(&mut bad, &ids(&["session-a"])).unwrap_err(),
        "workspace 存储缺少 archivedSessionIds"
    );
}

#[test]
fn response_never_restarts() {
    let doc = make_doc(&["session-a"], &[]);
    let edit = restore_archived("/h", &ids(&["session-a"]), Ok(doc)).unwrap();
    let r = archive_op_response(edit.report);
    assert!(!r.restart_triggered);
    assert_eq!(r.report.changed_archive, 1);
}

#[test]
fn second_restore_changes_nothing() {
    let doc = make_doc(&["session-a", "x", "session-b"], &[("w1", &["session-a"])]);
    let first = restore_archived("/h", &ids(&["session-a", "session-c"]), Ok(doc)).unwrap();
    assert_eq!(first.report.changed_archive, 1);
    let updated = first.updated.unwrap();
    assert_eq!(strings(at(&updated, &["global", "archivedSessionIds"])), vec!["x", "session-b"]);
    let second = restore_archived("/h", &ids(&["session-a", "session-c"]), Ok(updated)).unwrap();
    assert_eq!(second.report.processed, 2);
    assert_eq!(second.report.changed_archive, 0);
    assert!(second.updated.is_none());
}

#[test]
fn deletion_targets_checks_before_anything_is_removed() {
    let doc = make_doc(&["session-a", "session-b"], &[]);
    assert_eq!(deletion_targets("/h", &ids(&["session-b", "session-z"]), &doc).unwrap(), ids(&["session-b"]));
    let no_global = obj(vec![("tables", obj(vec![]))]);
    assert_eq!(
        deletion_targets("/h", &ids(&["session-a"]), &no_global).unwrap_err(),
        "/h/storages/workspace.json 缺少 global 对象"
    );
    assert!(deletion_targets("/h", &ids(&["../etc"]), &doc).is_err());
}

#[test]
fn session_dirs_are_root_or_workspace_children() {
    let listing = vec![
        RootEntry { name: "session-a".to_string(), is_dir: true, holds_session: false },
        RootEntry { name: "w1".to_string(), is_dir: true, holds_session: true },
        RootEntry { name: "w2".to_string(), is_dir: true, holds_session: false },
        RootEntry { name: "file".to_string(), is_dir: false, holds_session: true },
    ];
    assert_eq!(
        session_dirs("/h/sessions", "session-a", &listing),
        vec!["/h/sessions/session-a".to_string(), "/h/sessions/w1/session-a".to_string()]
    );
    assert!(session_dirs("/h/sessions", "../x", &listing).is_empty());
}
