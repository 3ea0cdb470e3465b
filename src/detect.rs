//! Technology detection: the tags that a directory's entries mark, by manifest
//! file name, file extension and editor directory, plus the host's operating system.
use vstd::prelude::*;

use crate::tagset::{ascending, TagSet};
use crate::text::{occurs, starts_at_exec, str_chars, str_eq};

verus! {

/// What detection reads of one entry of the walked tree.
pub struct DirEntryInfo {
    /// The entry's base name.
    pub name: String,
    /// The entry's whole path.
    pub path: String,
    /// Whether the entry is a directory.
    pub is_dir: bool,
}

/// The operating system the program runs on.
#[derive(Clone, Copy, Debug, PartialEq, Eq, Structural)]
pub enum HostOs {
    Linux,
    MacOs,
    Windows,
    Other,
}

/// Settings of detection.
#[derive(Clone, Copy, Debug, PartialEq, Eq, Structural)]
pub struct DetectionConfig {
    /// The deepest directory level scanned.
    pub max_depth: usize,
    /// Whether the host's operating system adds its tag.
    pub detect_os: bool,
    /// Whether editor and IDE directories add their tags.
    pub detect_ide: bool,
}

impl Default for DetectionConfig {
    fn default() -> (r: Self)
        ensures
            r.max_depth == 10,
            r.detect_os,
            r.detect_ide,
    {
        DetectionConfig { max_depth: 10, detect_os: true, detect_ide: true }
    }
}

/// The views of a table's rows.
pub open spec fn row_views(rows: Seq<(&'static str, &'static str)>) -> Seq<(Seq<char>, Seq<char>)> {
    rows.map_values(|r: (&'static str, &'static str)| (r.0@, r.1@))
}

/// Manifest file names and the tag each one marks.
pub open spec fn manifest_rules() -> Seq<(Seq<char>, Seq<char>)> {
    seq![
        ("Cargo.toml"@, "rust"@),
        ("package.json"@, "node"@),
        ("requirements.txt"@, "python"@),
        ("pyproject.toml"@, "python"@),
        ("setup.py"@, "python"@),
        ("Pipfile"@, "python"@),
        ("uv.lock"@, "python"@),
        ("go.mod"@, "go"@),
        ("go.sum"@, "go"@),
        ("pom.xml"@, "java"@),
        ("build.gradle"@, "java"@),
        ("build.gradle.kts"@, "java"@),
        ("CMakeLists.txt"@, "cpp"@),
        ("Makefile"@, "cpp"@),
        ("configure.ac"@, "cpp"@),
        ("Gemfile"@, "ruby"@),
        ("Rakefile"@, "ruby"@),
        ("Package.swift"@, "swift"@),
        ("composer.json"@, "php"@),
        ("build.sbt"@, "scala"@),
        ("mix.exs"@, "elixir"@),
        ("stack.yaml"@, "haskell"@),
        ("cabal.project"@, "haskell"@),
        ("build.zig"@, "zig"@),
        ("pubspec.yaml"@, "dart"@),
        ("main.tf"@, "terraform"@),
        ("terraform.tf"@, "terraform"@),
        ("playbook.yml"@, "ansible"@),
        ("ansible.cfg"@, "ansible"@),
        ("Dockerfile"@, "docker"@),
        ("docker-compose.yml"@, "docker"@),
        ("docker-compose.yaml"@, "docker"@),
    ]
}

/// File extensions and the tag each one marks.
pub open spec fn extension_rules() -> Seq<(Seq<char>, Seq<char>)> {
    seq![
        ("rs"@, "rust"@),
        ("py"@, "python"@),
        ("pyw"@, "python"@),
        ("pyi"@, "python"@),
        ("js"@, "node"@),
        ("jsx"@, "node"@),
        ("ts"@, "node"@),
        ("tsx"@, "node"@),
        ("mjs"@, "node"@),
        ("cjs"@, "node"@),
        ("go"@, "go"@),
        ("java"@, "java"@),
        ("cs"@, "csharp"@),
        ("fs"@, "csharp"@),
        ("vb"@, "csharp"@),
        ("c"@, "cpp"@),
        ("cpp"@, "cpp"@),
        ("cc"@, "cpp"@),
        ("cxx"@, "cpp"@),
        ("h"@, "cpp"@),
        ("hpp"@, "cpp"@),
        ("hxx"@, "cpp"@),
        ("rb"@, "ruby"@),
        ("swift"@, "swift"@),
        ("kt"@, "kotlin"@),
        ("kts"@, "kotlin"@),
        ("php"@, "php"@),
        ("scala"@, "scala"@),
        ("sc"@, "scala"@),
        ("ex"@, "elixir"@),
        ("exs"@, "elixir"@),
        ("hs"@, "haskell"@),
        ("lhs"@, "haskell"@),
        ("zig"@, "zig"@),
        ("dart"@, "dart"@),
        ("tf"@, "terraform"@),
        ("tfvars"@, "terraform"@),
        ("csproj"@, "csharp"@),
        ("sln"@, "csharp"@),
        ("fsproj"@, "csharp"@),
    ]
}

/// Editor and IDE directory names and the tag each one marks.
pub open spec fn ide_rules() -> Seq<(Seq<char>, Seq<char>)> {
    seq![
        (".vscode"@, "vscode"@),
        (".idea"@, "intellij"@),
        (".vim"@, "vim"@),
        (".nvim"@, "vim"@),
        (".emacs.d"@, "emacs"@),
    ]
}

fn manifest_rows() -> (r: Vec<(&'static str, &'static str)>)
    ensures
        row_views(r@) == manifest_rules(),
{
    let r = vec![
        ("Cargo.toml", "rust"),
        ("package.json", "node"),
        ("requirements.txt", "python"),
        ("pyproject.toml", "python"),
        ("setup.py", "python"),
        ("Pipfile", "python"),
        ("uv.lock", "python"),
        ("go.mod", "go"),
        ("go.sum", "go"),
        ("pom.xml", "java"),
        ("build.gradle", "java"),
        ("build.gradle.kts", "java"),
        ("CMakeLists.txt", "cpp"),
        ("Makefile", "cpp"),
        ("configure.ac", "cpp"),
        ("Gemfile", "ruby"),
        ("Rakefile", "ruby"),
        ("Package.swift", "swift"),
        ("composer.json", "php"),
        ("build.sbt", "scala"),
        ("mix.exs", "elixir"),
        ("stack.yaml", "haskell"),
        ("cabal.project", "haskell"),
        ("build.zig", "zig"),
        ("pubspec.yaml", "dart"),
        ("main.tf", "terraform"),
        ("terraform.tf", "terraform"),
        ("playbook.yml", "ansible"),
        ("ansible.cfg", "ansible"),
        ("Dockerfile", "docker"),
        ("docker-compose.yml", "docker"),
        ("docker-compose.yaml", "docker"),
    ];
    assert(row_views(r@) =~= manifest_rules());
    r
}

fn extension_rows() -> (r: Vec<(&'static str, &'static str)>)
    ensures
        row_views(r@) == extension_rules(),
{
    let r = vec![
        ("rs", "rust"),
        ("py", "python"),
        ("pyw", "python"),
        ("pyi", "python"),
        ("js", "node"),
        ("jsx", "node"),
        ("ts", "node"),
        ("tsx", "node"),
        ("mjs", "node"),
        ("cjs", "node"),
        ("go", "go"),
        ("java", "java"),
        ("cs", "csharp"),
        ("fs", "csharp"),
        ("vb", "csharp"),
        ("c", "cpp"),
        ("cpp", "cpp"),
        ("cc", "cpp"),
        ("cxx", "cpp"),
        ("h", "cpp"),
        ("hpp", "cpp"),
        ("hxx", "cpp"),
        ("rb", "ruby"),
        ("swift", "swift"),
        ("kt", "kotlin"),
        ("kts", "kotlin"),
        ("php", "php"),
        ("scala", "scala"),
        ("sc", "scala"),
        ("ex", "elixir"),
        ("exs", "elixir"),
        ("hs", "haskell"),
        ("lhs", "haskell"),
        ("zig", "zig"),
        ("dart", "dart"),
        ("tf", "terraform"),
        ("tfvars", "terraform"),
        ("csproj", "csharp"),
        ("sln", "csharp"),
        ("fsproj", "csharp"),
    ];
    assert(row_views(r@) =~= extension_rules());
    r
}

fn ide_rows() -> (r: Vec<(&'static str, &'static str)>)
    ensures
        row_views(r@) == ide_rules(),
{
    let r = vec![
        (".vscode", "vscode"),
        (".idea", "intellij"),
        (".vim", "vim"),
        (".nvim", "vim"),
        (".emacs.d", "emacs"),
    ];
    assert(row_views(r@) =~= ide_rules());
    r
}

/// The tags that `key` marks in `table`.
pub open spec fn table_tags(table: Seq<(Seq<char>, Seq<char>)>, key: Seq<char>) -> Set<Seq<char>> {
    Set::new(|t: Seq<char>| exists|i: int| 0 <= i < table.len() && table[i] == (key, t))
}

/// The index of the last `.` in `s`.
pub open spec fn last_dot(s: Seq<char>) -> Option<int>
    decreases s.len(),
{
    if s.len() == 0 {
        None
    } else if s.last() == '.' {
        Some(s.len() - 1)
    } else {
        last_dot(s.drop_last())
    }
}

/// A file name's extension, as `Path::extension` gives it: what follows the last
/// `.`, unless that `.` is the name's first character.
pub open spec fn extension(name: Seq<char>) -> Option<Seq<char>> {
    match last_dot(name) {
        Some(i) => if i > 0 {
            Some(name.skip(i + 1))
        } else {
            None
        },
        None => None,
    }
}

/// The tags one entry marks.
pub open spec fn entry_tags(e: DirEntryInfo, detect_ide: bool) -> Set<Seq<char>> {
    table_tags(manifest_rules(), e.name@).union(
        if e.name@ == "build.gradle.kts"@ && occurs(e.path@, "kotlin"@) {
            set!["kotlin"@]
        } else {
            Set::empty()
        },
    ).union(
        match extension(e.name@) {
            Some(x) => table_tags(extension_rules(), x),
            None => Set::empty(),
        },
    ).union(
        if detect_ide && e.is_dir {
            table_tags(ide_rules(), e.name@)
        } else {
            Set::empty()
        },
    )
}

/// The tag of the host's operating system.
pub open spec fn os_tag(os: HostOs) -> Option<Seq<char>> {
    match os {
        HostOs::Linux => Some("linux"@),
        HostOs::MacOs => Some("macos"@),
        HostOs::Windows => Some("windows"@),
        HostOs::Other => None,
    }
}

/// The set of tags detected among `entries`.
pub open spec fn detected_set(entries: Seq<DirEntryInfo>, config: DetectionConfig, os: HostOs) -> Set<
    Seq<char>,
> {
    Set::new(
        |t: Seq<char>|
            exists|k: int| 0 <= k < entries.len() && entry_tags(entries[k], config.detect_ide).contains(t),
    ).union(
        if config.detect_os && os_tag(os) is Some {
            set![os_tag(os)->0]
        } else {
            Set::empty()
        },
    )
}

/// The detected tags, in ascending order.
pub open spec fn detected_tags(entries: Seq<DirEntryInfo>, config: DetectionConfig, os: HostOs) -> Seq<
    Seq<char>,
> {
    ascending(detected_set(entries, config, os))
}

/// The views of a table held as characters and tag strings.
pub open spec fn table_views(t: Seq<(Vec<char>, String)>) -> Seq<(Seq<char>, Seq<char>)> {
    t.map_values(|r: (Vec<char>, String)| (r.0@, r.1@))
}

/// The rows with each key as characters.
fn rows_table(rows: Vec<(&'static str, &'static str)>) -> (r: Vec<(Vec<char>, String)>)
    ensures
        table_views(r@) == row_views(rows@),
{
    let mut out: Vec<(Vec<char>, String)> = Vec::new();
    let mut i: usize = 0;
    while i < rows.len()
        invariant
            i <= rows.len(),
            out.len() == i,
            table_views(out@) == row_views(rows@).take(i as int),
        decreases rows.len() - i,
    {
        let (k, t) = rows[i];
        out.push((str_chars(k), String::from_str(t)));
        assert(table_views(out@) =~= row_views(rows@).take(i + 1));
        i += 1;
    }
    assert(row_views(rows@).take(i as int) =~= row_views(rows@));
    out
}

/// Adds to `set` every tag that `key` marks in `table`.
fn add_matches(set: &mut TagSet, table: &Vec<(Vec<char>, String)>, key: &Vec<char>)
    requires
        old(set).wf(),
    ensures
        final(set).wf(),
        final(set).view_tags().to_set() == old(set).view_tags().to_set().union(
            table_tags(table_views(table@), key@),
        ),
{
    let ghost tv = table_views(table@);
    let mut i: usize = 0;
    while i < table.len()
        invariant
            i <= table.len(),
            tv == table_views(table@),
            set.wf(),
            set.view_tags().to_set() == old(set).view_tags().to_set().union(
                table_tags(tv.take(i as int), key@),
            ),
        decreases table.len() - i,
    {
        let ghost before = set.view_tags().to_set();
        if crate::text::chars_eq(&table[i].0, key) {
            set.insert(table[i].1.clone());
        }
        proof {
            assert(tv[i as int] == (table@[i as int].0@, table@[i as int].1@));
            let t1 = tv.take(i + 1);
            let t0 = tv.take(i as int);
            assert forall|t: Seq<char>| table_tags(t1, key@).contains(t) <==> (table_tags(
                t0,
                key@,
            ).contains(t) || tv[i as int] == (key@, t)) by {
                if table_tags(t1, key@).contains(t) {
                    let j = choose|j: int| 0 <= j < t1.len() && #[trigger] t1[j] == (key@, t);
                    if j < i {
                        assert(t0[j] == (key@, t));
                    }
                }
                if table_tags(t0, key@).contains(t) {
                    let j = choose|j: int| 0 <= j < t0.len() && #[trigger] t0[j] == (key@, t);
                    assert(t1[j] == (key@, t));
                }
                if tv[i as int] == (key@, t) {
                    assert(t1[i as int] == (key@, t));
                }
            }
            assert(set.view_tags().to_set() =~= old(set).view_tags().to_set().union(
                table_tags(tv.take(i + 1), key@),
            ));
        }
        i += 1;
    }
    assert(tv.take(i as int) =~= tv);
}

/// The extension of a file name, as `extension` states it.
fn extension_of(name: &Vec<char>) -> (r: Option<Vec<char>>)
    ensures
        match r {
            Some(x) => extension(name@) == Some(x@),
            None => extension(name@) is None,
        },
{
    let mut j: usize = name.len();
    assert(name@.take(j as int) =~= name@);
    while j > 0 && name[j - 1] != '.'
        invariant
            j <= name.len(),
            last_dot(name@) == last_dot(name@.take(j as int)),
        decreases j,
    {
        assert(name@.take(j as int).drop_last() =~= name@.take(j - 1));
        j -= 1;
    }
    if j <= 1 {
        if j == 1 {
            assert(name@.take(1).last() == '.');
        }
        return None;
    }
    assert(name@.take(j as int).last() == '.');
    let mut x: Vec<char> = Vec::new();
    let mut k: usize = j;
    while k < name.len()
        invariant
            j <= k <= name.len(),
            x@ == name@.subrange(j as int, k as int),
        decreases name.len() - k,
    {
        x.push(name[k]);
        assert(name@.subrange(j as int, k + 1) =~= name@.subrange(j as int, k as int).push(name@[k as int]));
        k += 1;
    }
    assert(x@ =~= name@.skip(j as int));
    Some(x)
}

/// Whether `pat` occurs in `s`.
fn occurs_exec(s: &Vec<char>, pat: &Vec<char>) -> (r: bool)
    ensures
        r == occurs(s@, pat@),
{
    if pat.len() == 0 {
        assert(s@.subrange(0, 0) =~= pat@);
        assert(crate::text::starts_at(s@, 0, pat@));
        return true;
    }
    if pat.len() > s.len() {
        return false;
    }
    let mut i: usize = 0;
    while i <= s.len() - pat.len()
        invariant
            0 < pat.len() <= s.len(),
            forall|j: int| 0 <= j < i ==> !crate::text::starts_at(s@, j, pat@),
        decreases s.len() - pat.len() + 1 - i,
    {
        if starts_at_exec(s, i, pat) {
            return true;
        }
        i += 1;
    }
    assert forall|j: int| !crate::text::starts_at(s@, j, pat@) by {
        if 0 <= j && j < i {
        }
    }
    false
}

/// The rule tables, held once for a whole walk.
struct Tables {
    manifest: Vec<(Vec<char>, String)>,
    extension: Vec<(Vec<char>, String)>,
    ide: Vec<(Vec<char>, String)>,
}

impl Tables {
    spec fn wf(&self) -> bool {
        &&& table_views(self.manifest@) == manifest_rules()
        &&& table_views(self.extension@) == extension_rules()
        &&& table_views(self.ide@) == ide_rules()
    }

    fn new() -> (r: Tables)
        ensures
            r.wf(),
    {
        Tables {
            manifest: rows_table(manifest_rows()),
            extension: rows_table(extension_rows()),
            ide: rows_table(ide_rows()),
        }
    }
}

/// Adds the tags that one entry marks.
fn add_entry_tags(set: &mut TagSet, e: &DirEntryInfo, tables: &Tables, detect_ide: bool)
    requires
        old(set).wf(),
        tables.wf(),
    ensures
        final(set).wf(),
        final(set).view_tags().to_set() == old(set).view_tags().to_set().union(
            entry_tags(*e, detect_ide),
        ),
{
    let name = str_chars(e.name.as_str());
    add_matches(set, &tables.manifest, &name);
    let ghost s1 = set.view_tags().to_set();
    let mut kotlin = false;
    if str_eq(e.name.as_str(), "build.gradle.kts") {
        let path = str_chars(e.path.as_str());
        let pat = str_chars("kotlin");
        if occurs_exec(&path, &pat) {
            kotlin = true;
            set.insert(String::from_str("kotlin"));
        }
    }
    let ghost s2 = set.view_tags().to_set();
    assert(s2 =~= s1.union(
        if e.name@ == "build.gradle.kts"@ && occurs(e.path@, "kotlin"@) {
            set!["kotlin"@]
        } else {
            Set::empty()
        },
    ));
    if let Some(x) = extension_of(&name) {
        add_matches(set, &tables.extension, &x);
    }
    let ghost s3 = set.view_tags().to_set();
    assert(s3 =~= s2.union(
        match extension(e.name@) {
            Some(x) => table_tags(extension_rules(), x),
            None => Set::empty(),
        },
    ));
    if detect_ide && e.is_dir {
        add_matches(set, &tables.ide, &name);
    }
    assert(set.view_tags().to_set() =~= old(set).view_tags().to_set().union(
        entry_tags(*e, detect_ide),
    ));
}

/// The directory depth a walk goes to: the smaller of the depth asked for and the
/// configured ceiling.
pub fn scan_depth(config: &DetectionConfig, depth: usize) -> (r: usize)
    ensures
        r == if depth < config.max_depth {
            depth
        } else {
            config.max_depth
        },
{
    if depth < config.max_depth {
        depth
    } else {
        config.max_depth
    }
}

/// The tags that the walked entries mark, with the host system's tag when asked
/// for, in ascending order. The order of the entries does not matter.
pub fn detect_technologies(entries: &Vec<DirEntryInfo>, config: &DetectionConfig, os: HostOs) -> (r:
    TagSet)
    ensures
        r.wf(),
        r.view_tags() == detected_tags(entries@, *config, os),
{
    let tables = Tables::new();
    let mut set = TagSet::new();
    let mut i: usize = 0;
    assert(set.view_tags().to_set() =~= Set::<Seq<char>>::empty());
    while i < entries.len()
        invariant
            i <= entries.len(),
            tables.wf(),
            set.wf(),
            set.view_tags().to_set() == Set::new(
                |t: Seq<char>|
                    exists|k: int| 0 <= k < i && entry_tags(entries@[k], config.detect_ide).contains(t),
            ),
        decreases entries.len() - i,
    {
        add_entry_tags(&mut set, &entries[i], &tables, config.detect_ide);
        proof {
            let f = |n: int|
                Set::new(
                    |t: Seq<char>|
                        exists|k: int| 0 <= k < n && entry_tags(entries@[k], config.detect_ide).contains(t),
                );
            assert forall|t: Seq<char>| f(i + 1).contains(t) <==> (f(i as int).contains(t) || entry_tags(
                entries@[i as int],
                config.detect_ide,
            ).contains(t)) by {
                if f(i + 1).contains(t) {
                    let k = choose|k: int|
                        0 <= k < i + 1 && entry_tags(entries@[k], config.detect_ide).contains(t);
                    if k < i {
                        assert(f(i as int).contains(t));
                    }
                }
            }
            assert(set.view_tags().to_set() =~= f(i + 1));
        }
        i += 1;
    }
    let ghost walked = set.view_tags().to_set();
    if config.detect_os {
        match os {
            HostOs::Linux => set.insert(String::from_str("linux")),
            HostOs::MacOs => set.insert(String::from_str("macos")),
            HostOs::Windows => set.insert(String::from_str("windows")),
            HostOs::Other => {},
        }
    }
    proof {
        assert(set.view_tags().to_set() =~= detected_set(entries@, *config, os));
        set.lemma_sorted();
        crate::tagset::lemma_ascending_of(set.view_tags());
    }
    set
}

/// Detection depends on which entries the walk met, not on their order or on
/// repeats: two walks that meet the same entries detect the same tags.
pub proof fn lemma_detection_order_free(
    e1: Seq<DirEntryInfo>,
    e2: Seq<DirEntryInfo>,
    config: DetectionConfig,
    os: HostOs,
)
    requires
        e1.to_set() == e2.to_set(),
    ensures
        detected_tags(e1, config, os) == detected_tags(e2, config, os),
{
    assert forall|t: Seq<char>| detected_set(e1, config, os).contains(t) implies detected_set(
        e2,
        config,
        os,
    ).contains(t) by {
        if exists|k: int| 0 <= k < e1.len() && entry_tags(e1[k], config.detect_ide).contains(t) {
            let k = choose|k: int| 0 <= k < e1.len() && entry_tags(e1[k], config.detect_ide).contains(t);
            assert(e1.to_set().contains(e1[k]));
            assert(e2.contains(e1[k]));
            let m = choose|m: int| 0 <= m < e2.len() && e2[m] == e1[k];
            assert(entry_tags(e2[m], config.detect_ide).contains(t));
        }
    }
    assert forall|t: Seq<char>| detected_set(e2, config, os).contains(t) implies detected_set(
        e1,
        config,
        os,
    ).contains(t) by {
        if exists|k: int| 0 <= k < e2.len() && entry_tags(e2[k], config.detect_ide).contains(t) {
            let k = choose|k: int| 0 <= k < e2.len() && entry_tags(e2[k], config.detect_ide).contains(t);
            assert(e2.to_set().contains(e2[k]));
            assert(e1.contains(e2[k]));
            let m = choose|m: int| 0 <= m < e1.len() && e1[m] == e2[k];
            assert(entry_tags(e1[m], config.detect_ide).contains(t));
        }
    }
    assert(detected_set(e1, config, os) =~= detected_set(e2, config, os));
}

} // verus!
