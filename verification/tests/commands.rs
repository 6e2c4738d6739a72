use pinkbin::commands::{
    action_for, action_name, dir_size, elevated_child_args, is_pruned_system_dir,
    keep_source_step, label_verdict, migrate_step_finish, migrate_step_start, plan_action,
    plan_migrate_app, plan_uninstall, route_scopes, system_cmd_finish, system_cmd_step,
    undo_log_entries, uninstall_candidates, uninstall_command, uninstall_dry_run,
    uninstall_step, Action, MigrateStepStart, Mode, RecycleGranularity, ScopeKind, ScopeRoute,
    SystemCmdResult, SystemCmdStep,
};
use pinkbin::commands::RecycleGranularity::{Directory, File};
use pinkbin::guard::Verdict;
use pinkbin::inventory::InstalledApp;
use pinkbin::system_ops::{CmdLaunch, CmdStep, ProcessOutcome};

#[test]
fn pruned_system_dir_is_case_insensitive() {
    assert!(is_pruned_system_dir("$RECYCLE.BIN"));
    assert!(is_pruned_system_dir("$recycle.bin"));
    assert!(is_pruned_system_dir("System Volume Information"));
    assert!(!is_pruned_system_dir("normal_dir"));
}

#[test]
fn pruned_dirs_include_trash_folders() {
    assert!(is_pruned_system_dir(".Trash"));
    assert!(is_pruned_system_dir(".TRASHES"));
    assert!(!is_pruned_system_dir(".trash2"));
    assert!(!is_pruned_system_dir(""));
}

#[test]
fn action_for_rules() {
    assert_eq!(action_for(Mode::Recycle, File, true), Action::Delete);
    assert_eq!(action_for(Mode::Delete, Directory, true), Action::Recycle);
    assert_eq!(action_for(Mode::Quarantine, Directory, false), Action::Recycle);
    assert_eq!(action_for(Mode::Quarantine, File, false), Action::Quarantine);
    assert_eq!(action_for(Mode::Delete, File, false), Action::Delete);
    assert_eq!(action_for(Mode::Recycle, File, false), Action::Recycle);
    assert_eq!(action_name(Action::Quarantine), "quarantine");
    assert_eq!(action_name(Action::Recycle), "recycle");
    assert_eq!(action_name(Action::Delete), "delete");
}

fn kind(mode: Mode, granularity: RecycleGranularity) -> ScopeKind {
    ScopeKind { mode, granularity }
}

#[test]
fn plan_action_refuses_hard_delete_on_directories() {
    let scopes = vec![kind(Mode::Delete, File), kind(Mode::Recycle, Directory)];
    assert_eq!(
        plan_action(&scopes, true).unwrap_err(),
        "hard_delete not allowed on directory-granularity scopes (would permanently remove entire dirs)"
    );
    assert_eq!(plan_action(&vec![kind(Mode::Recycle, File)], true).unwrap(), Action::Delete);
    assert_eq!(plan_action(&scopes, false).unwrap(), Action::Recycle);
    let q = vec![kind(Mode::Quarantine, File), kind(Mode::Quarantine, Directory)];
    assert_eq!(plan_action(&q, false).unwrap(), Action::Quarantine);
    let d = vec![kind(Mode::Delete, File), kind(Mode::Delete, File)];
    assert_eq!(plan_action(&d, false).unwrap(), Action::Delete);
}

#[test]
fn scopes_route_by_mode() {
    assert_eq!(route_scopes(&vec![Mode::SystemCmd, Mode::SystemCmd]), ScopeRoute::SystemCmd);
    assert_eq!(route_scopes(&vec![Mode::SystemCmd, Mode::Delete]), ScopeRoute::Mixed);
    assert_eq!(route_scopes(&vec![Mode::Recycle, Mode::Delete]), ScopeRoute::Files);
}

#[test]
fn dir_size_saturates() {
    assert_eq!(dir_size(&vec![1, 2, 3]), 6);
    assert_eq!(dir_size(&vec![]), 0);
    assert_eq!(dir_size(&vec![u64::MAX, 5, 7]), u64::MAX);
}

#[test]
fn child_args_drop_elevate_and_name_output() {
    let args: Vec<String> =
        vec!["--elevate".into(), "hibernate".into(), "off".into(), "--elevate".into()];
    let child = elevated_child_args(&args, "C:\\tmp\\out.txt");
    assert_eq!(child, vec!["hibernate", "off", "--elevated-output", "C:\\tmp\\out.txt"]);
}

#[test]
fn system_cmd_steps() {
    match system_cmd_step("s1".into(), None, Some(true), false, true) {
        SystemCmdStep::Done(r) => {
            assert_eq!(r.scope_id, "s1");
            assert_eq!(r.command, "");
            assert!(r.requires_admin);
            assert_eq!(r.error.as_deref(), Some("scope.command 为空"));
        }
        _ => panic!("empty command must not run"),
    }
    match system_cmd_step("s2".into(), Some("dism /online".into()), Some(true), true, true) {
        SystemCmdStep::Done(r) => {
            assert!(!r.executed);
            assert_eq!(r.stdout, "[dry-run] 将运行: dism /online");
            assert_eq!(r.stderr, "[dry-run] 注意: 此命令需要管理员权限");
            assert!(r.error.is_none());
            assert!(r.dry_run_is_actionable());
        }
        _ => panic!("dry run must not run"),
    }
    match system_cmd_step("s3".into(), Some("x".into()), None, false, false) {
        SystemCmdStep::Done(r) => {
            assert!(!r.requires_admin);
            assert_eq!(
                r.error.as_deref(),
                Some("system_cmd 只能在 Windows 上执行(当前非 Windows 环境)")
            );
            assert!(!r.dry_run_is_actionable());
        }
        _ => panic!("non-Windows must not run"),
    }
    match system_cmd_step("s4".into(), Some("x".into()), None, false, true) {
        SystemCmdStep::Run { scope_id, launch } => {
            assert_eq!(scope_id, "s4");
            assert_eq!(launch.command, "x");
            let r = system_cmd_finish(
                scope_id,
                launch,
                ProcessOutcome::Exited {
                    exit_code: Some(2),
                    success: false,
                    stdout: "o".into(),
                    stderr: "e".into(),
                },
            );
            assert!(!r.executed);
            assert_eq!(r.error.as_deref(), Some("命令退出码: Some(2)"));
        }
        _ => panic!("expected a launch"),
    }
}

fn result(command: &str, executed: bool, error: Option<&str>) -> SystemCmdResult {
    SystemCmdResult {
        scope_id: "s".into(),
        command: command.into(),
        executed,
        requires_admin: false,
        exit_code: None,
        stdout: String::new(),
        stderr: String::new(),
        error: error.map(|e| e.to_string()),
    }
}

#[test]
fn undo_log_keeps_executed_and_actionable() {
    let results = vec![
        result("a", true, None),
        result("", false, Some("scope.command 为空")),
        result("b", false, None),
        result("c", false, Some("failed")),
    ];
    assert_eq!(undo_log_entries(&results), vec![0, 2]);
}

fn app(name: &str, uninstall: Option<&str>, per_user: bool) -> InstalledApp {
    InstalledApp {
        name: name.into(),
        version: None,
        publisher: None,
        install_path: None,
        install_date: None,
        estimated_size_mb: None,
        uninstall_string: uninstall.map(|s| s.to_string()),
        is_per_user: per_user,
    }
}

#[test]
fn uninstall_prefers_exact_names() {
    let apps = vec![app("Foo Pro", None, false), app("foo", None, false), app("Bar", None, false)];
    assert_eq!(uninstall_candidates(&apps, "FOO"), vec![1]);
    assert_eq!(uninstall_candidates(&apps, "o"), vec![0, 1]);
    assert!(uninstall_candidates(&apps, "zzz").is_empty());
}

#[test]
fn silent_uninstall_commands() {
    assert_eq!(uninstall_command("MsiExec.exe /X{1}", true), "MsiExec.exe /X{1} /quiet /noreboot");
    assert_eq!(uninstall_command("C:\\app\\unins000.exe", true), "C:\\app\\unins000.exe /S");
    assert_eq!(uninstall_command("setup.exe /SILENT", true), "setup.exe /SILENT");
    assert_eq!(uninstall_command("setup.exe", false), "setup.exe");
}

#[test]
fn uninstall_plans() {
    let apps = vec![
        app("Safe", Some("C:\\Safe\\uninst.exe"), true),
        app("Evil", Some("cmd /c format c:"), false),
        app("Twin", None, false),
        app("Twin", None, false),
    ];
    let p = plan_uninstall(&apps, "safe", true);
    assert_eq!(p.candidates, vec![0]);
    assert_eq!(p.command_run.as_deref(), Some("C:\\Safe\\uninst.exe /S"));
    assert!(!p.requires_admin);
    assert_ne!(p.guard_verdict, "block");

    let p = plan_uninstall(&apps, "evil", false);
    assert_eq!(p.guard_verdict, "block");
    assert!(p.guard_reason.is_some());
    assert!(p.command_run.is_none());

    let p = plan_uninstall(&apps, "twin", false);
    assert_eq!(p.candidates.len(), 2);
    assert_eq!(p.guard_verdict, "skip");
    assert!(p.command_run.is_none());
}

#[test]
fn uninstall_execution_reports() {
    let d = uninstall_dry_run("x.exe".into(), true);
    assert_eq!(d.stdout, "[dry-run] 将执行上述卸载命令");
    assert!(!d.executed);
    match uninstall_step("x.exe".into(), false, false) {
        CmdStep::Done(r) => assert_eq!(
            r.error.as_deref(),
            Some("卸载命令只能在 Windows 上执行(当前非 Windows 环境)")
        ),
        _ => panic!("non-Windows must not run"),
    }
    assert!(matches!(uninstall_step("x.exe".into(), true, true), CmdStep::Run(CmdLaunch { .. })));
}

#[test]
fn verdict_labels() {
    assert_eq!(label_verdict(Verdict::Pass), ("pass".to_string(), None));
    assert_eq!(label_verdict(Verdict::NeedsReview), ("needs_review".to_string(), None));
    assert_eq!(label_verdict(Verdict::Warn("w".into())), ("warn".to_string(), Some("w".to_string())));
    assert_eq!(label_verdict(Verdict::Block("b".into())), ("block".to_string(), Some("b".to_string())));
}

#[test]
fn migrate_plan_rejects_bad_drive() {
    let err = plan_migrate_app("D:\\Games\\X", Some("X"), "DE", "C:\\AppData").unwrap_err();
    assert_eq!(err, "target_drive 必须是单个盘符(如 D),收到: DE");
}

#[test]
fn migrate_plan_builds_commands() {
    let p = plan_migrate_app("D:\\Games\\Foo", Some("Foo"), " e: ", "C:\\Users\\u\\AppData\\Roaming")
        .unwrap();
    assert_eq!(p.target_drive, "E");
    assert_eq!(p.target_path, "E:\\Foo");
    assert_eq!(p.commands.len(), 3);
    assert_eq!(p.commands[0].step, "robocopy");
    assert_eq!(
        p.commands[0].command,
        "robocopy \"D:\\Games\\Foo\" \"E:\\Foo\" /E /COPYALL /R:1 /W:1 /NFL /NDL /NP"
    );
    assert_eq!(p.commands[0].description, "复制目录到 E:\\Foo");
    assert!(p.commands[1].command.contains("-like 'D:\\\\Games\\\\Foo*'"));
    assert!(p.commands[1].command.contains("-Value 'E:\\\\Foo'"));
    assert!(p.commands[2].command.contains("'C:\\Users\\u\\AppData\\Roaming\\Microsoft\\Windows\\Start Menu'"));
    assert!(p.commands[2].command.contains("Replace('D:\\Games\\Foo', 'E:\\Foo')"));

    assert!(!p.blocked);
    let unnamed = plan_migrate_app("D:\\", None, "F", "A").unwrap();
    assert_eq!(unnamed.target_path, "F:\\MigratedApp");
}

#[test]
fn migrate_plan_never_moves_protected_sources() {
    let p = plan_migrate_app("C:\\Windows\\System32", Some("System32"), "D", "A").unwrap();
    assert_eq!(p.guard_verdict, "block");
    assert!(p.blocked);
    assert!(p.commands.is_empty());
}

#[test]
fn migrate_steps() {
    match migrate_step_start("robocopy", "d", "cmd", true, true) {
        MigrateStepStart::Done(s) => {
            assert!(!s.executed);
            assert_eq!(s.stdout, "[dry-run] 将运行: cmd");
        }
        _ => panic!("dry run must not run"),
    }
    match migrate_step_start("robocopy", "d", "cmd", false, false) {
        MigrateStepStart::Done(s) => assert_eq!(
            s.error.as_deref(),
            Some("此命令只能在 Windows 上执行(当前非 Windows 环境)")
        ),
        _ => panic!("non-Windows must not run"),
    }
    let exited = |code: i32, success: bool| ProcessOutcome::Exited {
        exit_code: Some(code),
        success,
        stdout: String::new(),
        stderr: String::new(),
    };
    assert!(migrate_step_finish("robocopy", "d", exited(3, false)).executed);
    let failed = migrate_step_finish("robocopy", "d", exited(8, false));
    assert!(!failed.executed);
    assert_eq!(failed.error.as_deref(), Some("退出码: Some(8)"));
    assert!(!migrate_step_finish("update_registry", "d", exited(3, false)).executed);
    assert!(migrate_step_finish("update_registry", "d", exited(0, true)).executed);
    let spawn = migrate_step_finish("x", "d", ProcessOutcome::SpawnFailed("nope".into()));
    assert_eq!(spawn.error.as_deref(), Some("命令启动失败: nope"));
    let keep = keep_source_step();
    assert_eq!(keep.step, "keep_source");
    assert!(keep.executed);
}
