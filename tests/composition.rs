use ignr::compose::compose_templates;
use ignr::text::{chars_string, split_lines, str_chars, trim_chars};

fn tags(v: &[&str]) -> Vec<String> {
    v.iter().map(|s| s.to_string()).collect()
}

fn texts(v: &[Option<&str>]) -> Vec<Option<String>> {
    v.iter().map(|o| o.map(|s| s.to_string())).collect()
}

#[test]
fn earlier_tag_wins_shared_line() {
    let r = compose_templates(&tags(&["a", "b"]), &texts(&[Some("X\n"), Some("X\nY\n")]));
    assert_eq!(r.content, "# === a ===\nX\n\n# === b ===\nY\n");
    assert!(r.missing.is_empty());
}

#[test]
fn reversed_order_drops_later_section() {
    let r = compose_templates(&tags(&["b", "a"]), &texts(&[Some("X\nY\n"), Some("X\n")]));
    assert_eq!(r.content, "# === b ===\nX\nY\n");
}

#[test]
fn missing_tag_is_recorded_and_skipped() {
    let r = compose_templates(
        &tags(&["known", "unknown-tag-xyz"]),
        &texts(&[Some("target/\n"), None]),
    );
    assert_eq!(r.content, "# === known ===\ntarget/\n");
    assert_eq!(r.missing, vec!["unknown-tag-xyz".to_string()]);
}

#[test]
fn all_missing_gives_empty_block() {
    let r = compose_templates(&tags(&["x", "y"]), &texts(&[None, None]));
    assert_eq!(r.content, "");
    assert_eq!(r.missing.len(), 2);
}

#[test]
fn blank_template_has_no_section() {
    let r = compose_templates(
        &tags(&["a", "blank", "c"]),
        &texts(&[Some("one\n"), Some("  \n\t\n\n"), Some("two\n")]),
    );
    assert_eq!(r.content, "# === a ===\none\n\n# === c ===\ntwo\n");
    assert!(!r.content.contains("blank"));
}

#[test]
fn duplicates_compared_after_trim_keep_untrimmed_text() {
    let r = compose_templates(
        &tags(&["a", "b"]),
        &texts(&[Some("  *.log  \nbuild/\n*.log\n"), Some("build/ \n\tnew\n")]),
    );
    assert_eq!(r.content, "# === a ===\n  *.log  \nbuild/\n\n# === b ===\n\tnew\n");
    let mut seen = std::collections::HashSet::new();
    for line in r.content.lines() {
        if line.starts_with("# === ") || line.trim().is_empty() {
            continue;
        }
        assert!(seen.insert(line.trim().to_string()));
    }
}

#[test]
fn composition_is_deterministic() {
    let t = tags(&["rust", "node", "rust"]);
    let x = texts(&[Some("target/\n"), Some("node_modules/\n*.log\n"), Some("target/\n")]);
    let a = compose_templates(&t, &x);
    let b = compose_templates(&t, &x);
    assert_eq!(a.content, b.content);
    assert_eq!(a.missing, b.missing);
    assert_eq!(a.content, "# === rust ===\ntarget/\n\n# === node ===\nnode_modules/\n*.log\n");
}

#[test]
fn crlf_lines_and_missing_final_newline() {
    let r = compose_templates(&tags(&["w"]), &texts(&[Some("a\r\nb\r\nc")]));
    assert_eq!(r.content, "# === w ===\na\nb\nc\n");
}

#[test]
fn empty_tag_list_gives_empty_block() {
    let r = compose_templates(&Vec::new(), &Vec::new());
    assert_eq!(r.content, "");
    assert!(r.missing.is_empty());
}

#[test]
fn split_lines_matches_std_lines() {
    for s in ["", "\n", "a", "a\n", "a\n\nb", "a\r\nb\r\n", "x\r", "\r\n\r\n", "é\u{3000}z\n"] {
        let c = str_chars(s);
        let got: Vec<String> = split_lines(&c).iter().map(|l| chars_string(l)).collect();
        let want: Vec<String> = s.lines().map(|l| l.to_string()).collect();
        assert_eq!(got, want, "input {:?}", s);
    }
}

#[test]
fn trim_matches_std_trim() {
    for s in ["", "  ", " a ", "\u{3000}b\u{85}", "\t\r\nc d\u{2029}", "x"] {
        let c = str_chars(s);
        assert_eq!(chars_string(&trim_chars(&c)), s.trim());
    }
}
