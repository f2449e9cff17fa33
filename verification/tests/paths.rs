use dsh_desktop::paths::{
    bundled_entry, extra_bin_dirs, join_path, search_roots_from, version_bin_dirs, version_manager_roots, Platform,
};
use dsh_desktop::portable::node;

fn s(v: &str) -> String {
    v.to_string()
}

#[test]
fn paths_join_like_pathbuf_push() {
    assert_eq!(join_path(Platform::Unix, "/home/u", ".volta"), "/home/u/.volta");
    assert_eq!(join_path(Platform::Unix, "/home/u/", ".volta"), "/home/u/.volta");
    assert_eq!(join_path(Platform::Windows, "C:\\Users\\u", "npm"), "C:\\Users\\u\\npm");
    assert_eq!(join_path(Platform::Windows, "C:", "npm"), "C:npm");
    assert_eq!(join_path(Platform::Windows, "D:/x/", "npm"), "D:/x/npm");
    assert_eq!(join_path(Platform::MacOs, "", "bin"), "bin");
}

#[test]
fn documented_install_directories() {
    let mac = extra_bin_dirs(Platform::MacOs, None, None, None, Some(s("/Users/m")), vec![s("/v/bin")]);
    assert_eq!(
        mac,
        vec![
            "/opt/homebrew/bin",
            "/usr/local/bin",
            "/opt/local/bin",
            "/Users/m/.volta/bin",
            "/Users/m/.asdf/shims",
            "/Users/m/.local/bin",
            "/v/bin",
        ]
    );
    let linux = extra_bin_dirs(Platform::Unix, Some(s("ignored")), None, None, None, vec![s("/v/bin")]);
    assert_eq!(linux, vec!["/usr/local/bin", "/usr/bin", "/snap/bin"]);
    let win = extra_bin_dirs(
        Platform::Windows,
        Some(s("C:\\Program Files")),
        Some(s("C:\\Users\\w\\AppData\\Local")),
        Some(s("C:\\Users\\w\\AppData\\Roaming")),
        Some(s("C:\\Users\\w")),
        vec![],
    );
    assert_eq!(
        win,
        vec![
            "C:\\Program Files\\nodejs",
            "C:\\Users\\w\\AppData\\Local\\Programs\\nodejs",
            "C:\\Users\\w\\AppData\\Local\\Volta\\bin",
            "C:\\Users\\w\\AppData\\Roaming\\npm",
            "C:\\Users\\w\\.volta\\bin",
            "C:\\Users\\w\\.asdf\\shims",
            "C:\\Users\\w\\.local\\bin",
        ]
    );
    assert!(extra_bin_dirs(Platform::Other, None, None, None, None, vec![s("/v")]).is_empty());
}

#[test]
fn version_manager_directories() {
    assert_eq!(
        version_manager_roots(Platform::Unix, "/h"),
        vec![
            "/h/.nvm/versions/node",
            "/h/.local/share/fnm/node-versions",
            "/h/Library/Application Support/fnm/node-versions",
        ]
    );
    let found = vec![
        (s("v9.0.0"), s("/n/v9.0.0")),
        (s("v20.11.0"), s("/n/v20.11.0")),
        (s("v18.19.1"), s("/n/v18.19.1")),
    ];
    assert_eq!(
        version_bin_dirs(Platform::Unix, &found),
        vec![
            "/n/v20.11.0/bin",
            "/n/v20.11.0/installation/bin",
            "/n/v18.19.1/bin",
            "/n/v18.19.1/installation/bin",
            "/n/v9.0.0/bin",
            "/n/v9.0.0/installation/bin",
        ]
    );
}

#[test]
fn search_roots_in_documented_order() {
    let ancestors: Vec<String> = (0..9).map(|i| format!("/a{i}")).collect();
    let roots = search_roots_from(
        Platform::Windows,
        Some(s("\\\\?\\C:\\app\\resources")),
        &ancestors,
        Some(s("C:\\work")),
        Some(s("C:\\src\\shell")),
    );
    assert_eq!(
        roots,
        vec![
            "C:\\app\\resources",
            "/a0",
            "/a1",
            "/a2",
            "/a3",
            "/a4",
            "/a5",
            "C:\\work",
            "C:\\src\\shell\\..",
        ]
    );
    assert!(search_roots_from(Platform::Unix, None, &vec![], None, None).is_empty());
}

#[test]
fn bundled_interpreter_name() {
    assert_eq!(node("/cache/runtime", Platform::Unix), "/cache/runtime/node");
    assert_eq!(node("C:\\cache\\runtime", Platform::Windows), "C:\\cache\\runtime\\node.exe");
}

#[test]
fn bundled_backend_entry_point() {
    assert_eq!(
        bundled_entry(Platform::Unix, "/opt/app/resources"),
        "/opt/app/resources/backend/node_modules/@deepseek-ai/dsh/lib/bin.js"
    );
    assert_eq!(
        bundled_entry(Platform::Windows, "C:\\app"),
        "C:\\app\\backend\\node_modules\\@deepseek-ai\\dsh\\lib\\bin.js"
    );
}
