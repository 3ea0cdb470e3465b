use ignr::config::AppConfig;
use ignr::detect::{detect_technologies, DetectionConfig, DirEntryInfo, HostOs};
use ignr::tagset::TagSet;
use ignr::templates::{
    builtin_template, collect_tags, list_available, resolve_template, template_sources,
    template_stem_of, TemplateLookup, TemplateManager, TemplateSource,
};

fn lookup(custom: Option<&str>, data: Option<&str>) -> TemplateLookup {
    TemplateLookup { custom: custom.map(|s| s.to_string()), data: data.map(|s| s.to_string()) }
}

#[test]
fn source_order_follows_preference() {
    assert_eq!(
        template_sources(true),
        vec![TemplateSource::Custom, TemplateSource::Data, TemplateSource::Builtin]
    );
    assert_eq!(
        template_sources(false),
        vec![TemplateSource::Data, TemplateSource::Builtin, TemplateSource::Custom]
    );
}

#[test]
fn first_source_with_text_wins() {
    let both = lookup(Some("mine\n"), Some("synced\n"));
    assert_eq!(resolve_template(true, "rust", &both).as_deref(), Some("mine\n"));
    assert_eq!(resolve_template(false, "rust", &both).as_deref(), Some("synced\n"));
    let custom_only = lookup(Some("mine\n"), None);
    let builtin = builtin_template("rust").unwrap();
    assert_eq!(resolve_template(false, "rust", &custom_only), Some(builtin));
    assert_eq!(resolve_template(false, "nosuch", &custom_only).as_deref(), Some("mine\n"));
    assert_eq!(resolve_template(true, "nosuch", &lookup(None, None)), None);
}

#[test]
fn builtin_table_lookup() {
    assert!(builtin_template("rust").unwrap().contains("target"));
    assert!(builtin_template("macos").unwrap().contains(".DS_Store"));
    assert_eq!(builtin_template("Rust"), None);
    assert_eq!(builtin_template("cobol"), None);
}

#[test]
fn get_template_ignores_case() {
    let m = TemplateManager::new(&AppConfig::default());
    let none = lookup(None, None);
    assert_eq!(m.get_template("RuSt", &none), builtin_template("rust"));
    assert_eq!(TemplateManager::template_file_name("Rust"), "rust.gitignore");
}

#[test]
fn merge_templates_resolves_then_composes() {
    let m = TemplateManager::new(&AppConfig::default());
    let tags = vec!["Custom".to_string(), "unknown-tag-xyz".to_string()];
    let found = vec![lookup(Some("a\nb\n"), None), lookup(None, None)];
    let r = m.merge_templates(&tags, &found);
    assert_eq!(r.content, "# === Custom ===\na\nb\n");
    assert_eq!(r.missing, vec!["unknown-tag-xyz".to_string()]);
}

#[test]
fn template_file_stems() {
    assert_eq!(template_stem_of("rust.gitignore").as_deref(), Some("rust"));
    assert_eq!(template_stem_of("a.b.gitignore").as_deref(), Some("a.b"));
    assert_eq!(template_stem_of(".gitignore"), None);
    assert_eq!(template_stem_of("rust.txt"), None);
    assert_eq!(template_stem_of("rust"), None);
}

#[test]
fn available_lists_every_source_sorted() {
    let custom = vec!["mine.gitignore".to_string(), "notes.md".to_string()];
    let data = vec!["Zeta.gitignore".to_string(), "rust.gitignore".to_string()];
    let r = list_available(&custom, &data);
    assert!(r.contains(&"mine".to_string()));
    assert!(r.contains(&"Zeta".to_string()));
    assert!(!r.contains(&"notes".to_string()));
    assert_eq!(r.iter().filter(|t| *t == "rust").count(), 1);
    let mut sorted = r.clone();
    sorted.sort();
    sorted.dedup();
    assert_eq!(r, sorted);
    assert_eq!(r.len(), 28);
}

#[test]
fn collected_tags_are_lowered_sorted_unique() {
    let detected = detect_technologies(
        &vec![DirEntryInfo { name: "go.mod".into(), path: "./go.mod".into(), is_dir: false }],
        &DetectionConfig::default(),
        HostOs::Other,
    );
    let r = collect_tags(detected, &vec!["Rust".into(), "GO".into()], &vec!["macOS".into()]);
    assert_eq!(r, vec!["go", "macos", "rust"]);
    assert!(collect_tags(TagSet::new(), &Vec::new(), &Vec::new()).is_empty());
}

#[test]
fn tag_set_keeps_string_order() {
    let mut s = TagSet::new();
    for t in ["b", "a", "ab", "B", "é", "a", ""] {
        s.insert(t.to_string());
    }
    assert_eq!(s.to_vec(), vec!["", "B", "a", "ab", "b", "é"]);
    assert_eq!(s.len(), 6);
}
