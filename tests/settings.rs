use ignr::config::{
    env_prefix, expand_path, AppConfig, AppPaths, ColorOption, CommonOpts, ConfigLocation,
    LogLevel, PathError, RuntimeContext, WriteStyle,
};
use ignr::sync::{sync_list_url, sync_targets, sync_template_url};

fn ctx(trace: bool, debug: bool, verbose: u8) -> RuntimeContext {
    RuntimeContext {
        common: CommonOpts {
            config: None,
            quiet: false,
            verbose,
            debug,
            trace,
            json: false,
            yaml: false,
            no_color: false,
            color: ColorOption::Auto,
            dry_run: false,
            assume_yes: false,
        },
        paths: AppPaths { config_file: "c".into(), data_dir: "d".into(), cache_dir: "e".into() },
        config: AppConfig::default(),
    }
}

#[test]
fn log_levels() {
    assert_eq!(ctx(false, false, 0).effective_log_level(), LogLevel::Warn);
    assert_eq!(ctx(false, false, 1).effective_log_level(), LogLevel::Info);
    assert_eq!(ctx(false, false, 2).effective_log_level(), LogLevel::Debug);
    assert_eq!(ctx(false, false, 7).effective_log_level(), LogLevel::Trace);
    assert_eq!(ctx(false, true, 0).effective_log_level(), LogLevel::Debug);
    assert_eq!(ctx(true, true, 1).effective_log_level(), LogLevel::Trace);
}

#[test]
fn write_styles() {
    let mut c = ctx(false, false, 0);
    assert_eq!(c.log_write_style(false, false, true), WriteStyle::Auto);
    assert_eq!(c.log_write_style(false, false, false), WriteStyle::Never);
    assert_eq!(c.log_write_style(true, false, false), WriteStyle::Always);
    assert_eq!(c.log_write_style(true, true, true), WriteStyle::Never);
    c.common.color = ColorOption::Always;
    assert_eq!(c.log_write_style(false, false, false), WriteStyle::Always);
    c.common.no_color = true;
    assert_eq!(c.log_write_style(false, false, true), WriteStyle::Never);
}

#[test]
fn prefix_of_environment_variables() {
    assert_eq!(env_prefix(), "IGNR");
}

#[test]
fn default_configuration() {
    let c = AppConfig::default();
    assert!(c.templates.prefer_local);
    assert_eq!(
        c.templates.template_url.as_deref(),
        Some("https://www.toptal.com/developers/gitignore/api")
    );
    assert_eq!(c.detection.max_depth, 10);
    assert!(c.paths.data_dir.is_none());
}

#[test]
fn expansion_of_paths() {
    assert_eq!(expand_path("/etc/ignr").unwrap(), "/etc/ignr");
    assert!(matches!(
        expand_path("$IGNR_TEST_SURELY_UNSET_VARIABLE/x"),
        Err(PathError::Expand { .. })
    ));
    let home = expand_path("~/x").unwrap();
    assert!(home.ends_with("/x"));
    assert!(!home.starts_with('~'));
}

#[test]
fn discovery_of_config_file() {
    let p = AppPaths::discover(None, "/home/u/.config/ignr", "d".into(), "c".into()).unwrap();
    assert_eq!(p.config_file, "/home/u/.config/ignr/config.toml");
    let dir = ConfigLocation { path: "/tmp/conf/".into(), is_dir: true };
    let p = AppPaths::discover(Some(dir), "x", "d".into(), "c".into()).unwrap();
    assert_eq!(p.config_file, "/tmp/conf/config.toml");
    let file = ConfigLocation { path: "my.toml".into(), is_dir: false };
    assert_eq!(AppPaths::discover(Some(file), "x", "d".into(), "c".into()).unwrap().config_file, "my.toml");
    let root = ConfigLocation { path: "/".into(), is_dir: false };
    assert!(matches!(
        AppPaths::discover(Some(root), "x", "d".into(), "c".into()),
        Err(PathError::InvalidConfigPath { .. })
    ));
}

#[test]
fn overrides_of_directories() {
    let base = AppPaths { config_file: "c".into(), data_dir: "d".into(), cache_dir: "e".into() };
    let mut cfg = AppConfig::default();
    let same = base.clone().apply_overrides(&cfg).unwrap();
    assert_eq!(same.data_dir, "d");
    cfg.paths.data_dir = Some("/data".into());
    cfg.paths.cache_dir = Some("/cache".into());
    let p = base.clone().apply_overrides(&cfg).unwrap();
    assert_eq!((p.data_dir.as_str(), p.cache_dir.as_str()), ("/data", "/cache"));
    cfg.paths.cache_dir = Some("$IGNR_TEST_SURELY_UNSET_VARIABLE".into());
    assert!(base.apply_overrides(&cfg).is_err());
}

#[test]
fn sync_addresses() {
    assert_eq!(sync_list_url("https://h/api//"), "https://h/api/list");
    let t = sync_targets("https://h/api/", "Rust\n  \n Node \r\nGo");
    let names: Vec<&str> = t.iter().map(|x| x.name.as_str()).collect();
    assert_eq!(names, vec!["rust", "node", "go"]);
    assert_eq!(t[1].url, "https://h/api/node");
    assert_eq!(sync_template_url("u//", "rust"), "u/rust");
}
