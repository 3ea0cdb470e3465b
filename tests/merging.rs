use ignr::managed::{generated_block, managed_header, merge_managed, MergeMode};

fn block(tags: &[&str], content: &str) -> String {
    let t: Vec<String> = tags.iter().map(|s| s.to_string()).collect();
    generated_block(&t, "2024-01-02", content)
}

#[test]
fn header_line_format() {
    let t = vec!["node".to_string(), "rust".to_string()];
    assert_eq!(
        managed_header(&t, "2024-01-02"),
        "# ---- ignr (detected: node,rust) @ 2024-01-02 ----\n"
    );
    assert_eq!(managed_header(&Vec::new(), "d"), "# ---- ignr (detected: ) @ d ----\n");
}

#[test]
fn block_is_header_blank_line_and_content() {
    assert_eq!(
        block(&["rust"], "# === rust ===\ntarget/\n"),
        "# ---- ignr (detected: rust) @ 2024-01-02 ----\n\n# === rust ===\ntarget/\n"
    );
}

#[test]
fn no_existing_file_gives_block() {
    let b = block(&["rust"], "x\n");
    assert_eq!(merge_managed(&None, &b, MergeMode::Replace), b);
    assert_eq!(merge_managed(&None, &b, MergeMode::Append), b);
}

#[test]
fn replace_keeps_before_and_after() {
    let old = block(&["go"], "# === go ===\n*.exe\n");
    let new = block(&["rust"], "# === rust ===\ntarget/\n");
    let existing = format!("before\n{old}\n# ---- other tool ----\nmine\n");
    let r = merge_managed(&Some(existing), &new, MergeMode::Replace);
    assert_eq!(r, format!("before\n{new}\n# ---- other tool ----\nmine\n"));
}

#[test]
fn replace_without_boundary_runs_to_end() {
    let old = block(&["go"], "# === go ===\n*.exe\n");
    let new = block(&["rust"], "# === rust ===\ntarget/\n");
    let existing = format!("before\n{old}\nafter");
    let r = merge_managed(&Some(existing), &new, MergeMode::Replace);
    assert_eq!(r, format!("before\n{new}"));
}

#[test]
fn replace_skips_adjacent_header_as_boundary() {
    let a = block(&["go"], "# === go ===\n*.exe\n");
    let b = block(&["zig"], "# === zig ===\nzig-out/\n");
    let new = block(&["rust"], "# === rust ===\ntarget/\n");
    let existing = format!("top\n{a}\n{b}\n# ---- end ----\n");
    let r = merge_managed(&Some(existing), &new, MergeMode::Replace);
    assert_eq!(r, format!("top\n{new}\n# ---- end ----\n"));
}

#[test]
fn replace_without_header_appends() {
    let new = block(&["rust"], "# === rust ===\ntarget/\n");
    let r = merge_managed(&Some("*.tmp\n".to_string()), &new, MergeMode::Replace);
    assert_eq!(r, format!("*.tmp\n\n{new}"));
}

#[test]
fn append_accumulates_blocks() {
    let old = block(&["go"], "# === go ===\n*.exe\n");
    let new = block(&["rust"], "# === rust ===\ntarget/\n");
    let r = merge_managed(&Some(old.clone()), &new, MergeMode::Append);
    assert_eq!(r, format!("{old}\n{new}"));
    assert_eq!(r.matches("# ---- ignr (detected:").count(), 2);
}
