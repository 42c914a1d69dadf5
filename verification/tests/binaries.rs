use phone_control::binaries::{
    adb, adb_dirs, common_bin_dirs, find_in_dirs, home_dir, is_executable, resolve_with, resolved,
    scrcpy, scrcpy_dirs, FileFacts, ToolEnv,
};
use phone_control::paths::Platform;

fn env_with_path(path: &[&str]) -> ToolEnv {
    ToolEnv {
        platform: Platform::Unix,
        exe_suffix: String::new(),
        home: Some("/home/me".to_string()),
        user_profile: None,
        local_app_data: None,
        android_home: None,
        android_sdk_root: None,
        path: strings(path),
        adb_path: None,
        scrcpy_path: None,
        working_dir: "/work".to_string(),
        drive_dirs: vec![],
    }
}

fn system_env() -> ToolEnv {
    env_with_path(&["/usr/local/bin", "/usr/bin", "/bin"])
}

fn strings(list: &[&str]) -> Vec<String> {
    list.iter().map(|s| s.to_string()).collect()
}

fn on_disk(p: &str) -> bool {
    std::path::Path::new(p).is_file()
}

#[test]
fn missing_binary_falls_back_to_bare_name() {
    let got = resolve_with(
        &system_env(),
        "phone-control-no-such-tool",
        &None,
        &vec![],
        &on_disk,
    );
    assert!(got.is_none());

    let mut cache = None;
    let name = resolved(
        &mut cache,
        &system_env(),
        "phone-control-no-such-tool",
        &None,
        &vec![],
        &on_disk,
    );
    assert_eq!(name, "phone-control-no-such-tool");
    assert!(cache.is_none());
}

#[test]
fn path_lookup_finds_a_real_tool() {
    // `sh` is in one of the usual PATH directories on every unix machine.
    let got = resolve_with(&system_env(), "sh", &None, &vec![], &on_disk);
    assert!(got.is_some(), "expected to find sh on PATH");
    assert!(on_disk(&got.unwrap()));
}

#[test]
fn well_known_dir_is_scanned_when_path_misses() {
    let unix = Platform::Unix;
    assert_eq!(
        find_in_dirs(unix, "sh", &strings(&["/bin"]), &on_disk),
        Some("/bin/sh".to_string())
    );
    assert_eq!(
        find_in_dirs(
            unix,
            "phone-control-no-such-tool",
            &strings(&["/bin"]),
            &on_disk
        ),
        None
    );
    // A directory that does not exist must not abort the scan.
    assert_eq!(
        find_in_dirs(unix, "sh", &strings(&["/no/such/dir", "/bin"]), &on_disk),
        Some("/bin/sh".to_string())
    );
}

#[test]
fn dir_fallback_agrees_with_path_lookup() {
    let env = system_env();
    for (name, dirs) in [("scrcpy", scrcpy_dirs(&env)), ("adb", adb_dirs(&env))] {
        let (Some(via_path), Some(via_dirs)) = (
            find_in_dirs(Platform::Unix, name, &env.path, &on_disk),
            find_in_dirs(Platform::Unix, name, &dirs, &on_disk),
        ) else {
            continue;
        };
        assert_eq!(
            via_path, via_dirs,
            "{name}: GUI fallback must pick the same binary as PATH"
        );
    }
}

#[test]
fn non_executable_override_is_ignored() {
    let bad = "/definitely/not/here/adb".to_string();
    let got = resolve_with(&system_env(), "sh", &Some(bad.clone()), &vec![], &on_disk);
    assert!(got.is_some(), "should fall through to PATH");
    assert_ne!(got.unwrap(), bad);
}

#[test]
fn executable_override_wins_over_path() {
    let got = resolve_with(
        &system_env(),
        "scrcpy",
        &Some("/bin/sh".to_string()),
        &vec![],
        &on_disk,
    );
    assert_eq!(got, Some("/bin/sh".to_string()));
}

#[test]
fn path_wins_over_well_known_dirs() {
    let env = env_with_path(&["/a", "/b"]);
    let dirs = strings(&["/c"]);
    let probe = |p: &str| p == "/b/adb" || p == "/c/adb";
    assert_eq!(
        resolve_with(&env, "adb", &None, &dirs, &probe),
        Some("/b/adb".to_string())
    );
    let only_dirs = |p: &str| p == "/c/adb";
    assert_eq!(
        resolve_with(&env, "adb", &None, &dirs, &only_dirs),
        Some("/c/adb".to_string())
    );
}

#[test]
fn exe_suffix_is_part_of_the_file_name() {
    let mut env = env_with_path(&["C:\\tools"]);
    env.platform = Platform::Windows;
    env.exe_suffix = ".exe".to_string();
    let probe = |p: &str| p == "C:\\tools\\adb.exe";
    let mut cache = None;
    assert_eq!(adb(&mut cache, &env, &probe), "C:\\tools\\adb.exe");
}

#[test]
fn successful_lookup_is_cached_and_failed_one_is_not() {
    let env = env_with_path(&["/a"]);
    let mut cache = None;
    assert_eq!(scrcpy(&mut cache, &env, &|_: &str| false), "scrcpy");
    assert!(cache.is_none());
    assert_eq!(
        scrcpy(&mut cache, &env, &|p: &str| p == "/usr/local/bin/scrcpy"),
        "/usr/local/bin/scrcpy"
    );
    // From now on the cache answers, whatever the disk looks like.
    assert_eq!(
        scrcpy(&mut cache, &env, &|p: &str| p == "/a/scrcpy"),
        "/usr/local/bin/scrcpy"
    );
    assert_eq!(cache, Some("/usr/local/bin/scrcpy".to_string()));
}

#[test]
fn overrides_belong_to_their_tools() {
    let mut env = env_with_path(&[]);
    env.adb_path = Some("/x/adb".to_string());
    env.scrcpy_path = Some("/x/scrcpy".to_string());
    let yes = |_: &str| true;
    assert_eq!(adb(&mut None, &env, &yes), "/x/adb");
    assert_eq!(scrcpy(&mut None, &env, &yes), "/x/scrcpy");
}

#[test]
fn search_directories_in_order() {
    let mut env = env_with_path(&[]);
    assert_eq!(
        common_bin_dirs(&env),
        strings(&[
            "/opt/homebrew/bin",
            "/usr/local/bin",
            "/usr/bin",
            "/bin",
            "/home/me/.local/bin"
        ])
    );
    env.android_home = Some("/sdk".to_string());
    env.android_sdk_root = Some("/root/sdk/".to_string());
    assert_eq!(
        adb_dirs(&env),
        strings(&[
            "/sdk/platform-tools",
            "/root/sdk/platform-tools",
            "/opt/homebrew/bin",
            "/usr/local/bin",
            "/usr/bin",
            "/bin",
            "/home/me/.local/bin",
            "/home/me/Library/Android/sdk/platform-tools",
            "/home/me/Android/Sdk/platform-tools"
        ])
    );
    env.home = None;
    env.user_profile = Some("/profile".to_string());
    assert_eq!(home_dir(&env), Some("/profile".to_string()));
    env.platform = Platform::Windows;
    env.local_app_data = Some("C:\\Local".to_string());
    assert_eq!(
        scrcpy_dirs(&env),
        strings(&["C:\\Local\\Android\\Sdk\\platform-tools"])
    );
}

#[test]
fn executable_means_a_file_with_an_execute_bit() {
    let facts = |is_file, mode| Some(FileFacts { is_file, mode });
    assert!(is_executable(Platform::Unix, facts(true, 0o755)));
    assert!(is_executable(Platform::Unix, facts(true, 0o001)));
    assert!(!is_executable(Platform::Unix, facts(true, 0o644)));
    assert!(!is_executable(Platform::Unix, facts(false, 0o755)));
    assert!(!is_executable(Platform::Unix, None));
    assert!(is_executable(Platform::Windows, facts(true, 0)));
}

#[test]
fn what_is_found_is_made_absolute() {
    let mut env = env_with_path(&["tools"]);
    let mut cache = None;
    assert_eq!(
        adb(&mut cache, &env, &|p: &str| p == "tools/adb"),
        "/work/tools/adb"
    );
    assert_eq!(cache, Some("/work/tools/adb".to_string()));
    env.adb_path = Some("bin/adb".to_string());
    assert_eq!(adb(&mut None, &env, &|p: &str| p == "bin/adb"), "/work/bin/adb");
    env.adb_path = Some("/opt/adb".to_string());
    assert_eq!(adb(&mut None, &env, &|_: &str| true), "/opt/adb");
    // An empty PATH entry is the working directory.
    let env = env_with_path(&[""]);
    assert_eq!(scrcpy(&mut None, &env, &|p: &str| p == "scrcpy"), "/work/scrcpy");
    // The bare name stays bare.
    assert_eq!(scrcpy(&mut None, &env, &|_: &str| false), "scrcpy");
}

#[test]
fn a_drive_is_searched_without_a_separator() {
    let hit = find_in_dirs(
        Platform::Windows,
        "adb.exe",
        &strings(&["C:"]),
        &|_: &str| true,
    );
    assert_eq!(hit, Some("C:adb.exe".to_string()));
}
