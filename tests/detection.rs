use ignr::detect::{detect_technologies, scan_depth, DetectionConfig, DirEntryInfo, HostOs};

fn entry(path: &str, is_dir: bool) -> DirEntryInfo {
    let name = path.rsplit('/').next().unwrap_or("").to_string();
    DirEntryInfo { name, path: path.to_string(), is_dir }
}

fn cfg(os: bool, ide: bool) -> DetectionConfig {
    DetectionConfig { max_depth: 10, detect_os: os, detect_ide: ide }
}

#[test]
fn manifests_extensions_and_ide_dirs() {
    let entries = vec![
        entry("./Cargo.toml", false),
        entry("./src/app.py", false),
        entry("./web/index.tsx", false),
        entry("./.vscode", true),
        entry("./.idea", true),
        entry("./notes.txt", false),
    ];
    let r = detect_technologies(&entries, &cfg(false, true), HostOs::Linux).to_vec();
    assert_eq!(r, vec!["intellij", "node", "python", "rust", "vscode"]);
}

#[test]
fn ide_dirs_ignored_when_disabled_or_not_dirs() {
    let entries = vec![entry("./.vscode", true), entry("./.idea", false)];
    assert!(detect_technologies(&entries, &cfg(false, false), HostOs::Linux).is_empty());
    let r = detect_technologies(&entries, &cfg(false, true), HostOs::Linux).to_vec();
    assert_eq!(r, vec!["vscode"]);
}

#[test]
fn kotlin_build_file_marks_java_and_kotlin() {
    let plain = vec![entry("./app/build.gradle.kts", false)];
    assert_eq!(
        detect_technologies(&plain, &cfg(false, false), HostOs::Other).to_vec(),
        vec!["java", "kotlin"]
    );
    let kt = vec![entry("./kotlin-app/build.gradle.kts", false)];
    assert_eq!(
        detect_technologies(&kt, &cfg(false, false), HostOs::Other).to_vec(),
        vec!["java", "kotlin"]
    );
}

#[test]
fn hidden_file_has_no_extension() {
    let entries = vec![entry("./.rs", false), entry("./x.", false), entry("./a.b.go", false)];
    assert_eq!(detect_technologies(&entries, &cfg(false, false), HostOs::Other).to_vec(), vec!["go"]);
}

#[test]
fn host_os_tag_added_when_asked() {
    let none: Vec<DirEntryInfo> = Vec::new();
    assert_eq!(detect_technologies(&none, &cfg(true, true), HostOs::MacOs).to_vec(), vec!["macos"]);
    assert_eq!(detect_technologies(&none, &cfg(true, true), HostOs::Windows).to_vec(), vec!["windows"]);
    assert!(detect_technologies(&none, &cfg(false, true), HostOs::Linux).is_empty());
    assert!(detect_technologies(&none, &cfg(true, true), HostOs::Other).is_empty());
}

#[test]
fn detection_ignores_entry_order_and_repeats() {
    let a = vec![entry("./go.mod", false), entry("./main.rs", false), entry("./Dockerfile", false)];
    let b = vec![
        entry("./Dockerfile", false),
        entry("./main.rs", false),
        entry("./go.mod", false),
        entry("./main.rs", false),
    ];
    let ra = detect_technologies(&a, &cfg(true, true), HostOs::Linux).to_vec();
    let rb = detect_technologies(&b, &cfg(true, true), HostOs::Linux).to_vec();
    assert_eq!(ra, rb);
    assert_eq!(ra, vec!["docker", "go", "linux", "rust"]);
    assert_eq!(ra, detect_technologies(&a, &cfg(true, true), HostOs::Linux).to_vec());
}

#[test]
fn scan_depth_is_the_smaller() {
    assert_eq!(scan_depth(&cfg(true, true), 3), 3);
    assert_eq!(scan_depth(&cfg(true, true), 50), 10);
    assert_eq!(DetectionConfig::default(), cfg(true, true));
}
