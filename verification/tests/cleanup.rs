use pinkbin::commands::{
    execute_decision, preview_report, select_scopes, system_cmd_scope_preview, Action, ExecuteDecision, MatchedPath, Mode,
    RecycleGranularity, ScopeMatches,
};

fn scope(id: &str, mode: Mode, granularity: RecycleGranularity, paths: &[(&str, u64)]) -> ScopeMatches {
    ScopeMatches {
        scope_id: id.to_string(),
        mode,
        granularity,
        items: paths
            .iter()
            .map(|(p, s)| MatchedPath {
                path: p.to_string(),
                size: *s,
                is_dir: granularity == RecycleGranularity::Directory,
            })
            .collect(),
    }
}

#[test]
fn scopes_are_selected_by_id() {
    let ids: Vec<String> = vec!["a".into(), "b".into(), "a".into()];
    assert_eq!(select_scopes(&ids, None), vec![0, 1, 2]);
    assert_eq!(select_scopes(&ids, Some("a")), vec![0, 2]);
    assert!(select_scopes(&ids, Some("zz")).is_empty());
}

#[test]
fn preview_lists_actions_totals_and_guard_notes() {
    let scopes = vec![
        scope(
            "temp",
            Mode::Delete,
            RecycleGranularity::File,
            &[("C:\\Users\\a\\AppData\\Local\\Temp\\x.tmp", 10), ("C:\\Windows\\System32\\y.dll", 5)],
        ),
        scope("envs", Mode::Quarantine, RecycleGranularity::Directory, &[("D:\\envs\\old", u64::MAX)]),
    ];
    let r = preview_report(&scopes, '\\');
    assert_eq!(r.total_count, 3);
    assert_eq!(r.total_bytes, u64::MAX);
    assert_eq!(r.matched[0].path, "C:/Users/a/AppData/Local/Temp/x.tmp");
    assert_eq!(r.matched[0].action, "delete");
    assert_eq!(r.matched[2].action, "recycle");
    assert_eq!(r.matched[2].scope_id, "envs");
    assert_eq!(r.guard_blocked.len(), 1);
    assert_eq!(r.guard_blocked[0].path, "c:/windows/system32/y.dll");
    assert_eq!(r.guard_warnings.len(), 1);
    assert_eq!(r.guard_warnings[0].path, "d:/envs/old");
}

#[test]
fn execution_stops_at_the_guard() {
    let scopes = vec![scope(
        "s",
        Mode::Delete,
        RecycleGranularity::File,
        &[("C:\\Windows\\System32\\kernel32.dll", 1)],
    )];
    match execute_decision("sys", &scopes, false, false) {
        ExecuteDecision::Blocked { blocked, .. } => assert_eq!(blocked.len(), 1),
        other => panic!("expected a block, got {other:?}"),
    }
    match execute_decision("sys", &scopes, false, true) {
        ExecuteDecision::Run { action, reason, warnings } => {
            assert_eq!(action, Action::Delete);
            assert_eq!(reason, "pinkbin-cli scaffold sys");
            assert_eq!(warnings.len(), 1);
        }
        other => panic!("expected a run, got {other:?}"),
    }
}

#[test]
fn execution_choices() {
    let empty = vec![scope("s", Mode::Delete, RecycleGranularity::File, &[])];
    assert!(matches!(execute_decision("x", &empty, false, false), ExecuteDecision::NoPaths));

    let dirs = vec![scope("d", Mode::Recycle, RecycleGranularity::Directory, &[("/tmp/a", 1)])];
    match execute_decision("x", &dirs, true, false) {
        ExecuteDecision::Refused(m) => assert!(m.starts_with("hard_delete not allowed")),
        other => panic!("expected a refusal, got {other:?}"),
    }
    let mixed = vec![
        scope("q", Mode::Quarantine, RecycleGranularity::File, &[("/tmp/a", 1)]),
        scope("d", Mode::Delete, RecycleGranularity::File, &[("/tmp/b", 1)]),
    ];
    match execute_decision("x", &mixed, false, false) {
        ExecuteDecision::Run { action, .. } => assert_eq!(action, Action::Recycle),
        other => panic!("expected a run, got {other:?}"),
    }
    match execute_decision("x", &mixed, true, false) {
        ExecuteDecision::Run { action, .. } => assert_eq!(action, Action::Delete),
        other => panic!("expected a run, got {other:?}"),
    }
}

#[test]
fn system_cmd_scope_previews() {
    let p = system_cmd_scope_preview(
        "winsxs".into(),
        "WinSxS".into(),
        Some("dism /online /cleanup-image /startcomponentcleanup".into()),
        Some(true),
        "C:\\Windows\\WinSxS",
        true,
        Some((1000, 7)),
    );
    assert_eq!(p.command, "dism /online /cleanup-image /startcomponentcleanup");
    assert!(p.requires_admin);
    assert_eq!(p.target_path, "C:/Windows/WinSxS");
    assert_eq!((p.target_size_bytes, p.target_file_count), (1000, 7));
    let q = system_cmd_scope_preview("x".into(), "X".into(), None, None, "/nope", false, Some((5, 5)));
    assert_eq!(q.command, "");
    assert!(!q.requires_admin);
    assert!(!q.target_exists);
    assert_eq!((q.target_size_bytes, q.target_file_count), (0, 0));
    let r = system_cmd_scope_preview("y".into(), "Y".into(), None, None, "/d", true, None);
    assert!(r.target_exists);
    assert_eq!(r.target_size_bytes, 0);
}

#[test]
fn preview_blocks_what_execution_blocks() {
    let scopes = vec![scope(
        "mix",
        Mode::Recycle,
        RecycleGranularity::File,
        &[
            ("C:\\Program Files\\App\\a.log", 1),
            ("C:/Users/u/Documents/b.docx", 2),
            ("C:\\Windows\\Temp\\c.tmp", 3),
        ],
    )];
    for sep in ['\\', '/'] {
        let preview = preview_report(&scopes, sep);
        match execute_decision("s", &scopes, false, false) {
            ExecuteDecision::Blocked { blocked, warnings } => {
                let pb: Vec<&str> = preview.guard_blocked.iter().map(|n| n.path.as_str()).collect();
                let eb: Vec<&str> = blocked.iter().map(|n| n.path.as_str()).collect();
                assert_eq!(pb, eb);
                assert_eq!(pb, ["c:/program files/app/a.log"]);
                assert_eq!(preview.guard_warnings.len(), warnings.len());
            }
            other => panic!("expected a block, got {other:?}"),
        }
    }
}
