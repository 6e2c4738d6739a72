use pinkbin::guard::{
    audit_plan, check, check_dedup_group, check_uninstall_string, normalize, AuditFlags,
    AuditResult, Class, Verdict,
};

#[test]
fn blocks_windows_system32() {
    match check("C:\\Windows\\System32\\drivers") {
        Verdict::Block(_) => {}
        other => panic!("expected Block, got {:?}", other),
    }
}

#[test]
fn blocks_winsxs_directly() {
    match check("C:\\Windows\\WinSxS\\some_manifest") {
        Verdict::Block(_) => {}
        other => panic!("expected Block, got {:?}", other),
    }
}

#[test]
fn blocks_recycle_bin_itself() {
    match check("C:\\$Recycle.Bin\\S-1-5-21") {
        Verdict::Block(_) => {}
        other => panic!("expected Block, got {:?}", other),
    }
}

#[test]
fn warns_user_documents() {
    match check("C:\\Users\\alice\\Documents\\report.docx") {
        Verdict::Warn(_) => {}
        other => panic!("expected Warn, got {:?}", other),
    }
}

#[test]
fn warns_user_pictures_on_d_drive() {
    match check("D:\\Users\\bob\\Pictures\\vacation.jpg") {
        Verdict::Warn(_) => {}
        other => panic!("expected Warn, got {:?}", other),
    }
}

#[test]
fn passes_temp_dir() {
    match check("C:\\Users\\alice\\AppData\\Local\\Temp\\junk.tmp") {
        Verdict::Pass => {}
        other => panic!("expected Pass, got {:?}", other),
    }
}

#[test]
fn passes_cache_dir() {
    match check("C:\\Users\\alice\\AppData\\Local\\Chrome\\Cache\\f_00001") {
        Verdict::Pass => {}
        other => panic!("expected Pass, got {:?}", other),
    }
}

#[test]
fn needs_review_for_unknown() {
    match check("D:\\Games\\Steam\\steamapps\\common\\Cyberpunk") {
        Verdict::NeedsReview => {}
        other => panic!("expected NeedsReview, got {:?}", other),
    }
}

#[test]
fn audit_rejects_plan_with_protected_path() {
    let paths = vec![
        String::from("C:\\Users\\alice\\AppData\\Local\\Temp\\ok.tmp"),
        String::from("C:\\Windows\\System32\\kernel32.dll"),
    ];
    match audit_plan(&paths, &AuditFlags::default()) {
        AuditResult::Rejected { blocked, .. } => {
            assert_eq!(blocked.len(), 1);
            assert!(
                blocked[0].path.to_lowercase().contains("system32"),
                "blocked path was: {}",
                blocked[0].path
            );
        }
        AuditResult::Approved { .. } => panic!("should reject"),
    }
}

#[test]
fn audit_approves_with_allow_system() {
    let paths = vec![String::from("C:\\Windows\\System32\\kernel32.dll")];
    let flags = AuditFlags { allow_system: true, ..Default::default() };
    match audit_plan(&paths, &flags) {
        AuditResult::Approved { warnings } => {
            assert_eq!(warnings.len(), 1);
            assert!(warnings[0].reason.contains("allow_system"));
        }
        AuditResult::Rejected { .. } => panic!("should approve with allow_system"),
    }
}

#[test]
fn audit_approves_all_pass() {
    let paths = vec![String::from("/tmp/junk1.tmp"), String::from("/tmp/junk2.tmp")];
    match audit_plan(&paths, &AuditFlags::default()) {
        AuditResult::Approved { warnings } => assert!(warnings.is_empty()),
        AuditResult::Rejected { .. } => panic!("should approve"),
    }
}

#[test]
fn dedup_group_all_deleted_blocked() {
    match check_dedup_group(3, 3) {
        Verdict::Block(_) => {}
        other => panic!("expected Block, got {:?}", other),
    }
}

#[test]
fn dedup_group_one_kept_passes() {
    match check_dedup_group(3, 2) {
        Verdict::Pass => {}
        other => panic!("expected Pass, got {:?}", other),
    }
}

#[test]
fn normalize_handles_backslash_and_case() {
    assert_eq!(normalize("C:\\Windows\\System32\\"), "c:/windows/system32");
    assert_eq!(normalize("D:/Users/Bob"), "d:/users/bob");
}

#[test]
fn blocks_program_files() {
    match check("C:\\Program Files\\SomeApp\\uninstall.exe") {
        Verdict::Block(_) => {}
        other => panic!("expected Block, got {:?}", other),
    }
}

// ── further cases ──

#[test]
fn block_reason_names_the_prefix() {
    match check("c:/windows/system32") {
        Verdict::Block(r) => assert_eq!(r, "系统关键路径:c:/windows/system32"),
        other => panic!("expected Block, got {:?}", other),
    }
    // the first matching prefix is reported
    match check("C:\\Windows\\System32\\config\\SAM") {
        Verdict::Block(r) => assert_eq!(r, "系统关键路径:c:/windows/system32"),
        other => panic!("expected Block, got {:?}", other),
    }
}

#[test]
fn prefix_needs_a_separator() {
    // "c:/windows/systemx" is not below "c:/windows/system"
    match check("C:\\Windows\\SystemX\\a") {
        Verdict::NeedsReview => {}
        other => panic!("expected NeedsReview, got {:?}", other),
    }
}

#[test]
fn separators_and_case_do_not_matter() {
    let a = format!("{:?}", check("C:/WINDOWS/system32/drivers"));
    let b = format!("{:?}", check("c:\\windows\\System32\\drivers"));
    assert_eq!(a, b);
}

#[test]
fn user_data_needs_whole_segment() {
    match check("D:\\Data\\mydocuments\\x") {
        Verdict::NeedsReview => {}
        other => panic!("expected NeedsReview, got {:?}", other),
    }
    match check("D:\\Music") {
        Verdict::Warn(r) => assert_eq!(r, "用户数据目录,需用户显式确认"),
        other => panic!("expected Warn, got {:?}", other),
    }
}

#[test]
fn log_and_temp_markers_pass() {
    assert!(matches!(check("E:\\app\\logs\\a.log"), Verdict::Pass));
    assert!(matches!(check("E:\\app\\temp"), Verdict::Pass));
    assert!(matches!(check("E:\\app\\temporary"), Verdict::NeedsReview));
}

#[test]
fn audit_notes_keep_order_and_classes() {
    let paths = vec![
        String::from("D:\\Games\\x"),
        String::from("C:\\Users\\a\\Desktop\\y"),
        String::from("C:\\Windows\\Fonts\\z.ttf"),
        String::from("C:\\Temp\\junk\\"),
    ];
    match audit_plan(&paths, &AuditFlags::default()) {
        AuditResult::Rejected { blocked, warnings } => {
            assert_eq!(blocked.len(), 1);
            assert_eq!(blocked[0].path, "c:/windows/fonts/z.ttf");
            assert_eq!(blocked[0].reason, "系统关键路径:c:/windows/fonts");
            assert_eq!(blocked[0].class, Class::Protected);
            assert_eq!(warnings.len(), 2);
            assert_eq!(warnings[0].class, Class::Unknown);
            assert_eq!(warnings[0].reason, "未识别路径,需 agent 判断");
            assert_eq!(warnings[1].class, Class::UserData);
        }
        AuditResult::Approved { .. } => panic!("should reject"),
    }
    let flags = AuditFlags { allow_system: true, ..Default::default() };
    match audit_plan(&paths, &flags) {
        AuditResult::Approved { warnings } => {
            assert_eq!(warnings.len(), 3);
            assert_eq!(warnings[2].reason, "allow_system 放行:系统关键路径:c:/windows/fonts");
            assert_eq!(warnings[2].class, Class::Protected);
        }
        AuditResult::Rejected { .. } => panic!("should approve"),
    }
}

#[test]
fn uninstall_strings_are_screened() {
    match check_uninstall_string("cmd /c FORMAT C: /q") {
        Verdict::Block(r) => {
            assert_eq!(r, "uninstall_string 含危险命令模式 (format ): format 命令会格式化磁盘")
        }
        other => panic!("expected Block, got {:?}", other),
    }
    match check_uninstall_string("RD /S /Q C:\\Windows") {
        Verdict::Block(_) => {}
        other => panic!("expected Block, got {:?}", other),
    }
    match check_uninstall_string("MsiExec.exe /X{1234}") {
        Verdict::Warn(r) => {
            assert_eq!(r, "uninstall_string 含 msiexec —— 正常但需 agent 确认来源可信")
        }
        other => panic!("expected Warn, got {:?}", other),
    }
    assert!(matches!(
        check_uninstall_string("\"C:\\Program Files\\App\\uninstall.exe\""),
        Verdict::Pass
    ));
}

#[test]
fn blocks_windows_directory_itself() {
    for p in ["C:\\Windows", "c:/windows/", "C:\\WINDOWS\\"] {
        match check(p) {
            Verdict::Block(reason) => assert_eq!(reason, "系统关键路径:c:/windows"),
            other => panic!("expected Block for {p}, got {other:?}"),
        }
    }
    assert!(matches!(check("C:\\Windows\\Temp\\x.log"), Verdict::Pass));
    assert!(matches!(check("C:\\Windows\\Logs\\CBS"), Verdict::Pass));
    assert!(matches!(check("C:\\Windowsold"), Verdict::NeedsReview));
}

#[test]
fn audit_notes_show_normalized_paths() {
    let paths = vec![String::from("C:\\Windows\\System32\\kernel32.dll")];
    match audit_plan(&paths, &AuditFlags::default()) {
        AuditResult::Rejected { blocked, .. } => {
            assert_eq!(blocked[0].path, "c:/windows/system32/kernel32.dll");
        }
        AuditResult::Approved { .. } => panic!("should reject"),
    }
}
