use pinkbin::elevate::{
    build_shell_params, is_elevated, launch_outcome, redirect_stdout_to_file, relaunch_elevated,
    wide_nul, ElevateErrorKind, LaunchError, LaunchReport,
};

#[test]
fn non_windows_counts_as_elevated() {
    assert!(is_elevated(false, None));
    assert!(!is_elevated(true, None));
    assert!(!is_elevated(true, Some((true, 0))));
    assert!(!is_elevated(true, Some((false, 1))));
    assert!(is_elevated(true, Some((true, 1))));
}

#[test]
fn relaunch_is_unsupported_off_windows() {
    let err = relaunch_elevated(&vec!["scan".to_string()], false).unwrap_err();
    assert_eq!(err.kind, ElevateErrorKind::Unsupported);
    assert_eq!(err.message, "提权(--elevate)只在 Windows 平台支持");
}

#[test]
fn shell_params_quote_spaces_and_skip_empty() {
    let args: Vec<String> =
        vec!["scan".into(), "".into(), "C:\\Program Files".into(), "a\tb".into(), "x".into()];
    assert_eq!(build_shell_params(&args), "scan \"C:\\Program Files\" \"a\tb\" x");
    assert_eq!(build_shell_params(&vec![]), "");
    let req = relaunch_elevated(&vec!["hibernate".into(), "off".into()], true).unwrap();
    assert_eq!(req.params, "hibernate off");
    let expected: Vec<u16> = "hibernate off".encode_utf16().chain(std::iter::once(0)).collect();
    assert_eq!(req.params_wide, Some(expected));
    let verb: Vec<u16> = "runas".encode_utf16().chain(std::iter::once(0)).collect();
    assert_eq!(req.verb_wide, verb);
    let empty = relaunch_elevated(&vec!["".into()], true).unwrap();
    assert_eq!(empty.params_wide, None);
}

#[test]
fn wide_strings_match_utf16() {
    for s in ["", "abc", "C:\\临时\\out.txt", "emoji 😀 here"] {
        let expected: Vec<u16> = s.encode_utf16().chain(std::iter::once(0)).collect();
        assert_eq!(wide_nul(s), expected);
    }
    assert_eq!(redirect_stdout_to_file("C:\\o", false), None);
    assert_eq!(redirect_stdout_to_file("o", true), Some(vec![b'o' as u16, 0]));
}

#[test]
fn launch_outcomes() {
    assert_eq!(launch_outcome(LaunchReport::Exited(3)).unwrap(), 3);
    assert_eq!(launch_outcome(LaunchReport::Exited(0xFFFF_FFFF)).unwrap(), -1);
    match launch_outcome(LaunchReport::ShellFailed("denied".into())) {
        Err(LaunchError::Failed(e)) => {
            assert_eq!(e.kind, ElevateErrorKind::Os);
            assert_eq!(e.message, "ShellExecuteExW 'runas' 失败: denied (用户可能拒绝了 UAC 提示)");
        }
        other => panic!("unexpected {other:?}"),
    }
    match launch_outcome(LaunchReport::NoProcess) {
        Err(LaunchError::Failed(e)) => assert_eq!(e.kind, ElevateErrorKind::Other),
        other => panic!("unexpected {other:?}"),
    }
    assert!(matches!(launch_outcome(LaunchReport::WaitFailed), Err(LaunchError::LastOsError)));
    assert!(matches!(launch_outcome(LaunchReport::ExitCodeFailed), Err(LaunchError::LastOsError)));
}
