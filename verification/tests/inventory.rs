use pinkbin::inventory::{
    app_from_registry, find_by_name, find_leftovers, list_installed_apps, reg_string_value,
    is_leftover_name, try_find_leftovers, DirEntryInfo, InstalledApp,
};

fn app(name: &str) -> InstalledApp {
    InstalledApp {
        name: name.into(),
        version: None,
        publisher: None,
        install_path: None,
        install_date: None,
        estimated_size_mb: None,
        uninstall_string: None,
        is_per_user: false,
    }
}

#[test]
fn find_by_name_case_insensitive() {
    let apps = vec![
        InstalledApp {
            name: "Google Chrome".into(),
            version: Some("120.0".into()),
            publisher: None,
            install_path: None,
            install_date: None,
            estimated_size_mb: None,
            uninstall_string: None,
            is_per_user: false,
        },
        InstalledApp {
            name: "Visual Studio Code".into(),
            version: None,
            publisher: None,
            install_path: None,
            install_date: None,
            estimated_size_mb: None,
            uninstall_string: None,
            is_per_user: true,
        },
    ];
    let results = find_by_name(&apps, "chrome");
    assert_eq!(results.len(), 1);
    assert_eq!(results[0].name, "Google Chrome");

    let results = find_by_name(&apps, "VISUAL");
    assert_eq!(results.len(), 1);
}

#[test]
fn list_installed_apps_returns_empty_on_non_windows() {
    // off Windows the registry yields nothing
    let apps = list_installed_apps(Vec::new());
    assert!(apps.is_empty());
}

// ── further cases ──

#[test]
fn inventory_sorted_and_deduplicated() {
    let mut first = app("zoom");
    first.version = Some("1".into());
    let apps = list_installed_apps(vec![first, app("Alpha"), app(""), app("ZOOM"), app("beta")]);
    let names: Vec<&str> = apps.iter().map(|a| a.name.as_str()).collect();
    assert_eq!(names, ["Alpha", "beta", "zoom"]);
    assert_eq!(apps[2].version.as_deref(), Some("1"));
}

#[test]
fn registry_values() {
    assert_eq!(reg_string_value("abc\0\0".into()).as_deref(), Some("abc"));
    assert_eq!(reg_string_value("\0".into()), None);
    let a = app_from_registry(Some("X".into()), None, None, None, None, None, Some(2048 + 1023), true)
        .unwrap();
    assert_eq!(a.estimated_size_mb, Some(2));
    assert!(a.is_per_user);
    assert!(app_from_registry(None, None, None, None, None, None, None, false).is_none());
}

#[test]
fn leftovers_match_names() {
    let e = |n: &str, p: &str, s: u64| DirEntryInfo { file_name: n.into(), path: p.into(), is_dir: true, size_bytes: s };
    let entries = vec![
        e("Roaming", "C:\\Users\\a\\AppData\\Roaming", 0),
        e("SomeApp", "C:\\Users\\a\\AppData\\Roaming\\SomeApp", 10),
        e("other", "C:\\Users\\a\\AppData\\Roaming\\other", 5),
        e("someapp-cache", "C:\\ProgramData\\someapp-cache", 7),
    ];
    let r = find_leftovers("SOMEAPP", &entries);
    assert_eq!(r.app_name, "SOMEAPP");
    assert_eq!(r.found_paths.len(), 2);
    assert_eq!(r.found_paths[0].path, "C:/Users/a/AppData/Roaming/SomeApp");
    assert_eq!(r.total_size_bytes, 17);
}

#[test]
fn leftovers_that_overflow_are_refused() {
    let e = |n: &str, s: u64| DirEntryInfo { file_name: n.into(), path: format!("D:\\{}", n), is_dir: false, size_bytes: s };
    // Only the matching entries count: the huge unrelated one does not.
    let entries = vec![e("big", u64::MAX), e("MyTool.log", 3), e("mytool-data", 4)];
    let r = try_find_leftovers("mytool", &entries).unwrap();
    assert_eq!(r.total_size_bytes, 7);
    assert_eq!(r.found_paths.len(), 2);
    assert_eq!(r.found_paths[0].path, "D:/MyTool.log");
    let too_big = vec![e("mytool-a", u64::MAX), e("mytool-b", 1)];
    assert!(try_find_leftovers("MyTool", &too_big).is_none());
}

#[test]
fn inventory_keeps_first_record_of_each_name() {
    let mut hklm = app("Zoom");
    hklm.version = Some("hklm".into());
    let mut hkcu = app("ZOOM");
    hkcu.version = Some("hkcu".into());
    let r = list_installed_apps(vec![hklm, app("git"), app(""), hkcu, app("Alpha"), app("GIT")]);
    let names: Vec<&str> = r.iter().map(|a| a.name.as_str()).collect();
    assert_eq!(names, ["Alpha", "git", "Zoom"]);
    assert_eq!(r[2].version.as_deref(), Some("hklm"));
    for a in 0..r.len() {
        for b in a + 1..r.len() {
            assert!(!r[a].name.eq_ignore_ascii_case(&r[b].name));
        }
    }
}

#[test]
fn leftover_names_match_ignoring_case() {
    assert!(is_leftover_name("MyTool", "mytool-cache"));
    assert!(is_leftover_name("mytool", "Data.MYTOOL"));
    assert!(!is_leftover_name("mytool", "my-tool"));
}
