//! Settings: the configuration's sections, the command-line options that shape a
//! run, the directories a run uses, and the log level and colour they call for.
use vstd::prelude::*;

use crate::detect::DetectionConfig;
use crate::text::{chars_string, push_char, str_chars};

verus! {

/// The name of the program, used in paths and in the environment prefix.
pub const APP_NAME: &'static str = "ignr";

/// Verbosity of diagnostics.
#[derive(Clone, Copy, Debug, PartialEq, Eq, Structural)]
pub enum LogLevel {
    Off,
    Error,
    Warn,
    Info,
    Debug,
    Trace,
}

/// How diagnostics are coloured.
#[derive(Clone, Copy, Debug, PartialEq, Eq, Structural)]
pub enum ColorOption {
    Auto,
    Always,
    Never,
}

/// Options that every command takes.
#[derive(Clone, Debug)]
pub struct CommonOpts {
    pub config: Option<String>,
    pub quiet: bool,
    pub verbose: u8,
    pub debug: bool,
    pub trace: bool,
    pub json: bool,
    pub yaml: bool,
    pub no_color: bool,
    pub color: ColorOption,
    pub dry_run: bool,
    pub assume_yes: bool,
}

/// Where templates come from and which are always added.
#[derive(Clone, Debug)]
pub struct TemplatesConfig {
    /// A directory of the user's own templates.
    pub template_dir: Option<String>,
    /// Where templates are synced from.
    pub template_url: Option<String>,
    /// Whether the user's own templates come before the synced and built-in ones.
    pub prefer_local: bool,
    /// Tags added to every generated block.
    pub always_include: Vec<String>,
}

/// Overrides of the data and cache directories.
#[derive(Clone, Debug)]
pub struct PathsConfig {
    pub data_dir: Option<String>,
    pub cache_dir: Option<String>,
}

/// The whole configuration.
#[derive(Clone, Debug)]
pub struct AppConfig {
    pub templates: TemplatesConfig,
    pub detection: DetectionConfig,
    pub paths: PathsConfig,
}

/// The address templates are synced from when none is configured.
pub open spec fn default_template_url() -> Seq<char> {
    "https://www.toptal.com/developers/gitignore/api"@
}

impl Default for TemplatesConfig {
    fn default() -> (r: Self)
        ensures
            r.template_dir is None,
            r.template_url matches Some(u) && u@ == default_template_url(),
            r.prefer_local,
            r.always_include@.len() == 0,
    {
        TemplatesConfig {
            template_dir: None,
            template_url: Some(String::from_str("https://www.toptal.com/developers/gitignore/api")),
            prefer_local: true,
            always_include: Vec::new(),
        }
    }
}

impl Default for PathsConfig {
    fn default() -> (r: Self)
        ensures
            r.data_dir is None,
            r.cache_dir is None,
    {
        PathsConfig { data_dir: None, cache_dir: None }
    }
}

impl Default for AppConfig {
    fn default() -> (r: Self)
        ensures
            r.templates.template_dir is None,
            r.templates.template_url matches Some(u) && u@ == default_template_url(),
            r.templates.prefer_local,
            r.templates.always_include@.len() == 0,
            r.detection.max_depth == 10,
            r.detection.detect_os,
            r.detection.detect_ide,
            r.paths.data_dir is None,
            r.paths.cache_dir is None,
    {
        AppConfig {
            templates: TemplatesConfig::default(),
            detection: DetectionConfig::default(),
            paths: PathsConfig::default(),
        }
    }
}

/// The configuration file, data and cache directories of a run.
#[derive(Clone, Debug)]
pub struct AppPaths {
    pub config_file: String,
    pub data_dir: String,
    pub cache_dir: String,
}

/// A path given for the configuration, once expanded, and whether it names a
/// directory.
pub struct ConfigLocation {
    pub path: String,
    pub is_dir: bool,
}

/// Why a path could not be settled.
#[derive(Clone, Debug, PartialEq, Eq)]
pub enum PathError {
    /// Expansion met an environment variable it could not read.
    Expand { var_name: String },
    /// The configuration file's path has no parent directory.
    InvalidConfigPath { path: String },
}

/// The state a command runs with.
#[derive(Clone, Debug)]
pub struct RuntimeContext {
    pub common: CommonOpts,
    pub paths: AppPaths,
    pub config: AppConfig,
}

/// How the log writer colours its output.
#[derive(Clone, Copy, Debug, PartialEq, Eq, Structural)]
pub enum WriteStyle {
    Auto,
    Always,
    Never,
}

/// The log level that the trace, debug and verbosity options call for.
pub open spec fn log_level_of(trace: bool, debug: bool, verbose: u8) -> LogLevel {
    if trace {
        LogLevel::Trace
    } else if debug {
        LogLevel::Debug
    } else if verbose == 0 {
        LogLevel::Warn
    } else if verbose == 1 {
        LogLevel::Info
    } else if verbose == 2 {
        LogLevel::Debug
    } else {
        LogLevel::Trace
    }
}

impl RuntimeContext {
    /// The log level the options call for: trace, then debug, then one step per
    /// `-v` from warnings up.
    pub fn effective_log_level(&self) -> (r: LogLevel)
        ensures
            r == log_level_of(self.common.trace, self.common.debug, self.common.verbose),
    {
        if self.common.trace {
            LogLevel::Trace
        } else if self.common.debug {
            LogLevel::Debug
        } else {
            match self.common.verbose {
                0 => LogLevel::Warn,
                1 => LogLevel::Info,
                2 => LogLevel::Debug,
                _ => LogLevel::Trace,
            }
        }
    }

    /// How log output is coloured, given whether `FORCE_COLOR` and `NO_COLOR` are
    /// set and whether standard error is a terminal: any request to disable wins,
    /// then a request to force.
    pub fn log_write_style(&self, force_color_env: bool, no_color_env: bool, stderr_is_terminal: bool) -> (r:
        WriteStyle)
        ensures
            ({
                let force = self.common.color == ColorOption::Always || force_color_env;
                let disable = self.common.no_color || self.common.color == ColorOption::Never
                    || no_color_env || (!force && !stderr_is_terminal);
                r == if disable {
                    WriteStyle::Never
                } else if force {
                    WriteStyle::Always
                } else {
                    WriteStyle::Auto
                }
            }),
    {
        let force = matches!(self.common.color, ColorOption::Always) || force_color_env;
        let disable = self.common.no_color || matches!(self.common.color, ColorOption::Never)
            || no_color_env || (!force && !stderr_is_terminal);
        if disable {
            WriteStyle::Never
        } else if force {
            WriteStyle::Always
        } else {
            WriteStyle::Auto
        }
    }
}

/// Whether a character is an ASCII letter or digit.
pub open spec fn is_ascii_alnum(c: char) -> bool {
    ('a' <= c && c <= 'z') || ('A' <= c && c <= 'Z') || ('0' <= c && c <= '9')
}

/// A name as an environment-variable prefix: ASCII letters and digits upper-cased,
/// everything else `_`.
pub open spec fn env_name(name: Seq<char>) -> Seq<char> {
    name.map_values(
        |c: char|
            if 'a' <= c && c <= 'z' {
                ((c as u8) - 32) as char
            } else if is_ascii_alnum(c) {
                c
            } else {
                '_'
            },
    )
}

/// The prefix of the environment variables that override the configuration.
pub fn env_prefix() -> (r: String)
    ensures
        r@ == env_name(APP_NAME@),
{
    let name = str_chars(APP_NAME);
    let mut out = String::new();
    let mut i: usize = 0;
    while i < name.len()
        invariant
            i <= name.len(),
            name@ == APP_NAME@,
            out@ == env_name(name@.take(i as int)),
        decreases name.len() - i,
    {
        let c = name[i];
        let d = if 'a' <= c && c <= 'z' {
            ((c as u8) - 32) as char
        } else if ('A' <= c && c <= 'Z') || ('0' <= c && c <= '9') {
            c
        } else {
            '_'
        };
        push_char(&mut out, d);
        assert(env_name(name@.take(i + 1)) =~= env_name(name@.take(i as int)).push(d));
        i += 1;
    }
    assert(name@.take(i as int) =~= name@);
    out
}

/// Whether `p` expands to itself: it holds no `$` and does not start with `~`.
pub open spec fn plain_path(p: Seq<char>) -> bool {
    !p.contains('$') && !(p.len() > 0 && p[0] == '~')
}

/// Relies on `shellexpand::full`: a leading `~` becomes the home directory and
/// `$NAME` or `${NAME}` the variable's value. Text with no `$` and no leading `~`
/// comes back unchanged, and only a variable lookup can fail, reporting the
/// variable's name.
#[verifier::external_body]
fn expand_str_path(text: &str) -> (r: Result<String, PathError>)
    ensures
        plain_path(text@) ==> (r is Ok && r->Ok_0@ == text@),
        r is Err ==> r->Err_0 is Expand && text@.contains('$'),
{
    shellexpand::full(text).map(|c| c.into_owned()).map_err(
        |e| PathError::Expand { var_name: e.var_name },
    )
}

/// Expands `~` and environment variables in a path.
pub fn expand_path(path: &str) -> (r: Result<String, PathError>)
    ensures
        plain_path(path@) ==> (r matches Ok(s) && s@ == path@),
        r matches Err(e) ==> e is Expand && path@.contains('$'),
{
    expand_str_path(path)
}

/// `base` joined with the relative name `name`, with one `/` between them.
pub open spec fn join_path(base: Seq<char>, name: Seq<char>) -> Seq<char> {
    if base.len() == 0 {
        name
    } else if base.last() == '/' {
        base + name
    } else {
        base + seq!['/'] + name
    }
}

/// A path with no parent: empty, or the root alone.
pub open spec fn parentless(p: Seq<char>) -> bool {
    forall|i: int| 0 <= i < p.len() ==> p[i] == '/'
}

/// The configuration file a location names: the file itself, or `config.toml` in
/// the directory.
pub open spec fn config_file_in(path: Seq<char>, is_dir: bool) -> Seq<char> {
    if is_dir {
        join_path(path, "config.toml"@)
    } else {
        path
    }
}

fn join_exec(base: &str, name: &str) -> (r: String)
    ensures
        r@ == join_path(base@, name@),
{
    let mut out = str_chars(base);
    if out.len() > 0 && out[out.len() - 1] != '/' {
        out.push('/');
    }
    let n = str_chars(name);
    crate::text::append_chars(&mut out, &n);
    chars_string(&out)
}

fn parentless_exec(p: &str) -> (r: bool)
    ensures
        r == parentless(p@),
{
    let c = str_chars(p);
    let mut i: usize = 0;
    while i < c.len()
        invariant
            i <= c.len(),
            c@ == p@,
            forall|k: int| 0 <= k < i ==> c@[k] == '/',
        decreases c.len() - i,
    {
        if c[i] != '/' {
            return false;
        }
        i += 1;
    }
    true
}

impl AppPaths {
    /// The paths of a run: the configuration file at the location given (a
    /// directory holds `config.toml`), or `config.toml` in `config_dir`; the data
    /// and cache directories as given. A configuration file path without a parent
    /// is refused.
    pub fn discover(
        override_location: Option<ConfigLocation>,
        config_dir: &str,
        data_dir: String,
        cache_dir: String,
    ) -> (r: Result<AppPaths, PathError>)
        ensures
            ({
                let file = match override_location {
                    Some(loc) => config_file_in(loc.path@, loc.is_dir),
                    None => join_path(config_dir@, "config.toml"@),
                };
                &&& parentless(file) ==> (r matches Err(PathError::InvalidConfigPath { path })
                    && path@ == file)
                &&& !parentless(file) ==> (r matches Ok(p) && p.config_file@ == file
                    && p.data_dir@ == data_dir@ && p.cache_dir@ == cache_dir@)
            }),
    {
        let config_file = match override_location {
            Some(loc) => {
                if loc.is_dir {
                    join_exec(loc.path.as_str(), "config.toml")
                } else {
                    loc.path
                }
            },
            None => join_exec(config_dir, "config.toml"),
        };
        if parentless_exec(config_file.as_str()) {
            return Err(PathError::InvalidConfigPath { path: config_file });
        }
        Ok(AppPaths { config_file, data_dir, cache_dir })
    }

    /// The paths with the configured data and cache directories, expanded, in
    /// place of the discovered ones.
    pub fn apply_overrides(self, cfg: &AppConfig) -> (r: Result<AppPaths, PathError>)
        ensures
            r matches Ok(p) ==> p.config_file == self.config_file,
            r matches Ok(p) ==> (cfg.paths.data_dir is None ==> p.data_dir == self.data_dir),
            r matches Ok(p) ==> (cfg.paths.cache_dir is None ==> p.cache_dir == self.cache_dir),
            cfg.paths.data_dir is None && cfg.paths.cache_dir is None ==> (r matches Ok(p)
                && p == self),
            (cfg.paths.data_dir matches Some(d) && plain_path(d@)) && (cfg.paths.cache_dir is None
                || plain_path(cfg.paths.cache_dir->0@)) ==> (r matches Ok(p) && p.data_dir@
                == cfg.paths.data_dir->0@),
            (cfg.paths.cache_dir matches Some(c) && plain_path(c@)) && (cfg.paths.data_dir is None
                || plain_path(cfg.paths.data_dir->0@)) ==> (r matches Ok(p) && p.cache_dir@
                == cfg.paths.cache_dir->0@),
            r matches Err(e) ==> e is Expand,
    {
        let mut paths = self;
        if let Some(data_override) = &cfg.paths.data_dir {
            match expand_path(data_override.as_str()) {
                Ok(d) => {
                    paths.data_dir = d;
                },
                Err(e) => {
                    return Err(e);
                },
            }
        }
        if let Some(cache_override) = &cfg.paths.cache_dir {
            match expand_path(cache_override.as_str()) {
                Ok(c) => {
                    paths.cache_dir = c;
                },
                Err(e) => {
                    return Err(e);
                },
            }
        }
        Ok(paths)
    }
}

} // verus!
