use pinkbin::system_ops::{
    analyze_migratable_apps, finish_cmd, hibernate_off, hibernate_on, hibernate_set_size,
    hibernate_status, pagefile_migrate, pagefile_status, parse_drive_letter, parse_vss_storage,
    restore_delete_all, restore_status, run_cmd, AppDir, CmdLaunch, CmdStep, ProcessOutcome,
};

fn done(step: CmdStep) -> pinkbin::system_ops::CmdResult {
    match step {
        CmdStep::Done(r) => r,
        CmdStep::Run(l) => panic!("expected a final result, got a launch of {:?}", l.command),
    }
}

fn launch(step: CmdStep) -> CmdLaunch {
    match step {
        CmdStep::Run(l) => l,
        CmdStep::Done(r) => panic!("expected a launch, got {:?}", r),
    }
}

#[test]
fn hibernate_status_does_not_crash() {
    // off Windows the hibernation file is never found
    let s = hibernate_status(None, String::new());
    assert!(!s.enabled);
    assert_eq!(s.hiberfil_path, "C:\\hiberfil.sys");
}

#[test]
fn pagefile_status_does_not_crash() {
    let _s = pagefile_status("", "");
}

#[test]
fn restore_status_does_not_crash() {
    let _s = restore_status("", "");
}

#[test]
fn parse_vss_storage_extracts_bytes() {
    let output = "Shadow Copy Storage association\n\
        For volume: (C:)\\\\\\\\?\\\\Volume{guid}\n\
        Shadow Copy Storage volume: (C:)\\\\\\\\?\\\\Volume{guid}\n\
        Used Shadow Copy Storage space: 5.2 GB (5,589,345,234 bytes)\n\
        Allocated Shadow Copy Storage space: 6 GB (6,442,450,944 bytes)\n\
        Maximum Shadow Copy Storage space: UNBOUNDED";
    let used = parse_vss_storage(output, "Used");
    let allocated = parse_vss_storage(output, "Allocated");
    assert_eq!(used, Some(5589345234));
    assert_eq!(allocated, Some(6442450944));
}

#[test]
fn parse_vss_storage_returns_none_on_no_match() {
    assert_eq!(parse_vss_storage("no relevant info", "Used"), None);
}

#[test]
fn hibernate_set_size_rejects_invalid_percent() {
    let r = done(hibernate_set_size(49, true));
    assert!(!r.executed);
    assert!(r.error.unwrap().contains("50-100"));
}

#[test]
fn pagefile_migrate_rejects_invalid_drive() {
    let r = done(pagefile_migrate("DE", true));
    assert!(!r.executed);
    assert!(r.error.unwrap().contains("单个盘符"));
}

#[test]
fn analyze_migratable_apps_does_not_crash() {
    // nothing found off Windows
    let a = analyze_migratable_apps(&Vec::new(), &Vec::new());
    assert!(a.candidates.is_empty() || a.c_program_files_total_bytes == 0);
}

#[test]
fn run_cmd_non_windows_returns_error() {
    let r = done(run_cmd("echo test", false, false));
    assert!(!r.executed);
    assert!(r.error.unwrap().contains("非 Windows"));
}

// ── further cases ──

#[test]
fn empty_command_is_refused() {
    let r = done(run_cmd("", true, true));
    assert_eq!(r.command, "");
    assert_eq!(r.error.as_deref(), Some("command 为空"));
    assert!(r.requires_admin);
}

#[test]
fn commands_are_launched_on_windows() {
    assert_eq!(launch(hibernate_off(true)).command, "powercfg /h off");
    assert_eq!(launch(hibernate_on(true)).command, "powercfg /h on");
    assert_eq!(launch(restore_delete_all(true)).command, "vssadmin delete shadows /all /quiet");
    let l = launch(hibernate_set_size(75, true));
    assert_eq!(l.command, "powercfg /h /size 75");
    assert!(l.requires_admin);
    let r = done(hibernate_set_size(101, true));
    assert_eq!(r.error.as_deref(), Some("percent 必须在 50-100 之间,收到 101"));
    let r = done(hibernate_off(false));
    assert_eq!(r.command, "powercfg /h off");
}

#[test]
fn pagefile_migrate_builds_wmic_command() {
    let l = launch(pagefile_migrate(" d: ", true));
    assert_eq!(
        l.command,
        "wmic computersystem set AutomaticManagedPagefile=False && wmic pagefilesetting where name=\"C:\\\\pagefile.sys\" delete && wmic pagefilesetting create name=\"D:\\\\pagefile.sys\""
    );
    let r = done(pagefile_migrate("DE", true));
    assert_eq!(r.error.as_deref(), Some("target_drive 必须是单个盘符(如 D),收到: DE"));
    assert_eq!(parse_drive_letter("e"), Some('E'));
    assert_eq!(parse_drive_letter("E::"), Some('E'));
    assert_eq!(parse_drive_letter("7"), None);
    assert_eq!(parse_drive_letter("é"), None);
    // trailing ':' is stripped before trailing '\'
    assert_eq!(parse_drive_letter("d:\\"), None);
    assert_eq!(parse_drive_letter("d\\:"), Some('D'));
}

#[test]
fn finish_cmd_reports_exit_codes() {
    let l = launch(run_cmd("dir", false, true));
    let r = finish_cmd(
        l,
        ProcessOutcome::Exited {
            exit_code: Some(-3),
            success: false,
            stdout: "o".into(),
            stderr: "e".into(),
        },
    );
    assert!(!r.executed);
    assert_eq!(r.exit_code, Some(-3));
    assert_eq!(r.error.as_deref(), Some("命令退出码: Some(-3)"));
    assert_eq!(r.stdout, "o");
    let l = launch(run_cmd("dir", false, true));
    let r = finish_cmd(l, ProcessOutcome::SpawnFailed("not found".into()));
    assert_eq!(r.error.as_deref(), Some("命令启动失败: not found"));
    let l = launch(run_cmd("dir", false, true));
    let r = finish_cmd(
        l,
        ProcessOutcome::Exited { exit_code: Some(0), success: true, stdout: "".into(), stderr: "".into() },
    );
    assert!(r.executed);
    assert_eq!(r.error, None);
}

#[test]
fn hibernate_status_reads_powercfg_output() {
    let s = hibernate_status(Some(1024), "Hibernation has been REMOVED.".into());
    assert!(!s.enabled);
    let s = hibernate_status(Some(1024), "Standby (S3)\nHibernate".into());
    assert!(s.enabled);
    assert_eq!(s.hiberfil_size_bytes, Some(1024));
}

#[test]
fn restore_status_counts_shadows() {
    let shadows = "Shadow Copy Volume: a\nShadow Copy Volume: b\n";
    let storage = "Used Shadow Copy Storage space: 1 GB (1,000 bytes)\r\n";
    let r = restore_status(shadows, storage);
    assert_eq!(r.shadow_count, 2);
    assert_eq!(r.used_space_bytes, Some(1000));
    assert_eq!(r.allocated_space_bytes, None);
    assert_eq!(
        r.vssadmin_output,
        format!("=== shadows ===\n{}\n=== shadowstorage ===\n{}", shadows, storage)
    );
    assert!(r.requires_admin);
}

#[test]
fn vss_value_overflow_and_order() {
    assert_eq!(parse_vss_storage("Used (99999999999999999999 bytes)", "used"), None);
    assert_eq!(
        parse_vss_storage("Used ( bytes)\nUSED space (7 bytes)\nused (8 bytes)", "Used"),
        Some(7)
    );
}

#[test]
fn pagefile_status_reads_json() {
    let out = r#"[{"Name":"C:\\pagefile.sys","AllocatedBaseSize":4096,"CurrentUsage":12,"PeakUsage":300},{"Name":""}]"#;
    let s = pagefile_status(out, " True \r\n");
    assert_eq!(s.pagefiles.len(), 1);
    assert_eq!(s.pagefiles[0].name, "C:\\pagefile.sys");
    assert_eq!(s.pagefiles[0].drive, "C");
    assert_eq!(s.pagefiles[0].allocated_base_size_mb, Some(4096));
    assert_eq!(s.pagefiles[0].current_usage_mb, Some(12));
    assert_eq!(s.pagefiles[0].peak_usage_mb, Some(300));
    assert!(s.auto_managed);
    let single = r#"{"Name":"D:\\pagefile.sys","AllocatedBaseSize":-1}"#;
    let s = pagefile_status(single, "False");
    assert_eq!(s.pagefiles.len(), 1);
    assert_eq!(s.pagefiles[0].drive, "D");
    assert_eq!(s.pagefiles[0].allocated_base_size_mb, None);
    assert!(!s.auto_managed);
    assert!(pagefile_status("null", "").pagefiles.is_empty());
    assert!(pagefile_status("not json", "").pagefiles.is_empty());
}

#[test]
fn migration_candidates_sorted_by_size() {
    let d = |n: &str, s: u64| AppDir { name: n.into(), install_path: format!("C:\\P\\{}", n), size_bytes: s };
    let a = analyze_migratable_apps(&vec![d("a", 5), d("b", 9), d("c", u64::MAX)], &vec![d("u", 9)]);
    let names: Vec<&str> = a.candidates.iter().map(|c| c.name.as_str()).collect();
    assert_eq!(names, ["c", "b", "u", "a"]);
    assert_eq!(a.c_program_files_total_bytes, u64::MAX);
    assert!(a.candidates.iter().all(|c| c.drive == "C" && !c.has_uninstall_string));
}
