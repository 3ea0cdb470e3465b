//! Template resolution: the sources a tag's template is looked up in, in the
//! order the configuration prefers, the built-in templates, and the manager that
//! resolves and composes the templates of a list of tags.
use vstd::prelude::*;

use crate::compose::{compose_model, compose_templates, composed_text, text_views, Composition};
use crate::config::AppConfig;
use crate::detect::{extension, last_dot};
use crate::tagset::{ascending, TagSet};
use crate::text::{chars_eq, chars_string, str_chars, string_views};

verus! {

/// What `str::to_lowercase` makes of a string.
pub uninterp spec fn lower_of(s: Seq<char>) -> Seq<char>;

/// Relies on `str::to_lowercase`: the result depends on the characters alone.
#[verifier::external_body]
pub(crate) fn lowercase(s: &str) -> (r: String)
    ensures
        r@ == lower_of(s@),
{
    s.to_lowercase()
}

/// Where a template may be found.
#[derive(Clone, Copy, Debug, PartialEq, Eq, Structural)]
pub enum TemplateSource {
    /// The user's own template directory.
    Custom,
    /// The managed data directory, filled by syncing or on first run.
    Data,
    /// The templates built into the program.
    Builtin,
}

/// The order the sources are asked in: the user's own directory first or last.
pub open spec fn source_order(prefer_local: bool) -> Seq<TemplateSource> {
    if prefer_local {
        seq![TemplateSource::Custom, TemplateSource::Data, TemplateSource::Builtin]
    } else {
        seq![TemplateSource::Data, TemplateSource::Builtin, TemplateSource::Custom]
    }
}

/// The file extension of template files.
pub open spec fn template_ext() -> Seq<char> {
    "gitignore"@
}

/// The built-in templates: lower-case tag and text.
pub open spec fn builtin_templates() -> Seq<(Seq<char>, Seq<char>)> {
    seq![
        ("rust"@, "/target/\n**/*.rs.bk\n*.pdb\n"@),
        ("python"@, "__pycache__/\n*.py[cod]\n*$py.class\n*.so\n.Python\nbuild/\ndist/\n*.egg-info/\n.eggs/\n.venv/\nvenv/\n.pytest_cache/\n.mypy_cache/\n.ruff_cache/\n.coverage\nhtmlcov/\n"@),
        ("node"@, "node_modules/\nnpm-debug.log*\nyarn-debug.log*\nyarn-error.log*\npnpm-debug.log*\n.npm/\n.eslintcache\ndist/\ncoverage/\n.env\n.env.local\n"@),
        ("go"@, "*.exe\n*.exe~\n*.dll\n*.so\n*.dylib\n*.test\n*.out\ngo.work\nvendor/\n"@),
        ("java"@, "*.class\n*.log\n*.jar\n*.war\n*.ear\n*.nar\nhs_err_pid*\ntarget/\nbuild/\n.gradle/\n"@),
        ("csharp"@, "bin/\nobj/\n*.user\n*.suo\n*.userprefs\n.vs/\n[Dd]ebug/\n[Rr]elease/\n*.nupkg\nTestResults/\n"@),
        ("cpp"@, "*.o\n*.obj\n*.so\n*.dylib\n*.dll\n*.a\n*.lib\n*.exe\n*.out\nbuild/\nCMakeFiles/\nCMakeCache.txt\ncmake_install.cmake\n"@),
        ("ruby"@, "*.gem\n*.rbc\n.bundle/\nvendor/bundle/\nlog/\ntmp/\ncoverage/\n.byebug_history\n"@),
        ("swift"@, ".build/\nDerivedData/\n*.xcodeproj/xcuserdata/\n*.xcworkspace/xcuserdata/\nPackages/\n*.ipa\n*.dSYM.zip\n"@),
        ("kotlin"@, "*.class\n*.jar\nbuild/\n.gradle/\nout/\n.kotlin/\n"@),
        ("php"@, "vendor/\ncomposer.phar\n.phpunit.result.cache\n.env\n"@),
        ("scala"@, "target/\nproject/target/\nproject/project/\n.bsp/\n.metals/\n.bloop/\n*.class\n"@),
        ("elixir"@, "/_build/\n/deps/\n/cover/\n/doc/\nerl_crash.dump\n*.ez\n"@),
        ("haskell"@, "dist/\ndist-newstyle/\n.stack-work/\n*.hi\n*.o\n*.dyn_hi\n*.dyn_o\ncabal.project.local\n"@),
        ("zig"@, "zig-cache/\n.zig-cache/\nzig-out/\n"@),
        ("dart"@, ".dart_tool/\n.packages\nbuild/\n.pub-cache/\n.flutter-plugins\n.flutter-plugins-dependencies\n"@),
        ("terraform"@, ".terraform/\n*.tfstate\n*.tfstate.*\ncrash.log\n*.tfvars\noverride.tf\noverride.tf.json\n.terraform.lock.hcl\n"@),
        ("ansible"@, "*.retry\n.vault_pass\n"@),
        ("docker"@, ".docker/\ndocker-compose.override.yml\n"@),
        ("vscode"@, ".vscode/*\n!.vscode/settings.json\n!.vscode/tasks.json\n!.vscode/launch.json\n!.vscode/extensions.json\n*.code-workspace\n"@),
        ("intellij"@, ".idea/\n*.iml\n*.iws\n*.ipr\nout/\n"@),
        ("vim"@, "[._]*.s[a-v][a-z]\n[._]*.sw[a-p]\n[._]s[a-rt-v][a-z]\n[._]ss[a-gi-z]\n[._]sw[a-p]\nSession.vim\nSessionx.vim\n.netrwhist\n*~\ntags\n"@),
        ("emacs"@, "*~\n\\#*\\#\n/.emacs.desktop\n/.emacs.desktop.lock\n*.elc\nauto-save-list\ntramp\n.\\#*\n"@),
        ("linux"@, "*~\n.fuse_hidden*\n.directory\n.Trash-*\n.nfs*\n"@),
        ("macos"@, ".DS_Store\n.AppleDouble\n.LSOverride\n._*\n.Spotlight-V100\n.Trashes\n"@),
        ("windows"@, "Thumbs.db\nThumbs.db:encryptable\nehthumbs.db\n*.stackdump\n[Dd]esktop.ini\n$RECYCLE.BIN/\n*.lnk\n"@),
    ]
}

fn builtin_rows() -> (r: Vec<(&'static str, &'static str)>)
    ensures
        crate::detect::row_views(r@) == builtin_templates(),
{
    let r = vec![
        ("rust", "/target/\n**/*.rs.bk\n*.pdb\n"),
        ("python", "__pycache__/\n*.py[cod]\n*$py.class\n*.so\n.Python\nbuild/\ndist/\n*.egg-info/\n.eggs/\n.venv/\nvenv/\n.pytest_cache/\n.mypy_cache/\n.ruff_cache/\n.coverage\nhtmlcov/\n"),
        ("node", "node_modules/\nnpm-debug.log*\nyarn-debug.log*\nyarn-error.log*\npnpm-debug.log*\n.npm/\n.eslintcache\ndist/\ncoverage/\n.env\n.env.local\n"),
        ("go", "*.exe\n*.exe~\n*.dll\n*.so\n*.dylib\n*.test\n*.out\ngo.work\nvendor/\n"),
        ("java", "*.class\n*.log\n*.jar\n*.war\n*.ear\n*.nar\nhs_err_pid*\ntarget/\nbuild/\n.gradle/\n"),
        ("csharp", "bin/\nobj/\n*.user\n*.suo\n*.userprefs\n.vs/\n[Dd]ebug/\n[Rr]elease/\n*.nupkg\nTestResults/\n"),
        ("cpp", "*.o\n*.obj\n*.so\n*.dylib\n*.dll\n*.a\n*.lib\n*.exe\n*.out\nbuild/\nCMakeFiles/\nCMakeCache.txt\ncmake_install.cmake\n"),
        ("ruby", "*.gem\n*.rbc\n.bundle/\nvendor/bundle/\nlog/\ntmp/\ncoverage/\n.byebug_history\n"),
        ("swift", ".build/\nDerivedData/\n*.xcodeproj/xcuserdata/\n*.xcworkspace/xcuserdata/\nPackages/\n*.ipa\n*.dSYM.zip\n"),
        ("kotlin", "*.class\n*.jar\nbuild/\n.gradle/\nout/\n.kotlin/\n"),
        ("php", "vendor/\ncomposer.phar\n.phpunit.result.cache\n.env\n"),
        ("scala", "target/\nproject/target/\nproject/project/\n.bsp/\n.metals/\n.bloop/\n*.class\n"),
        ("elixir", "/_build/\n/deps/\n/cover/\n/doc/\nerl_crash.dump\n*.ez\n"),
        ("haskell", "dist/\ndist-newstyle/\n.stack-work/\n*.hi\n*.o\n*.dyn_hi\n*.dyn_o\ncabal.project.local\n"),
        ("zig", "zig-cache/\n.zig-cache/\nzig-out/\n"),
        ("dart", ".dart_tool/\n.packages\nbuild/\n.pub-cache/\n.flutter-plugins\n.flutter-plugins-dependencies\n"),
        ("terraform", ".terraform/\n*.tfstate\n*.tfstate.*\ncrash.log\n*.tfvars\noverride.tf\noverride.tf.json\n.terraform.lock.hcl\n"),
        ("ansible", "*.retry\n.vault_pass\n"),
        ("docker", ".docker/\ndocker-compose.override.yml\n"),
        ("vscode", ".vscode/*\n!.vscode/settings.json\n!.vscode/tasks.json\n!.vscode/launch.json\n!.vscode/extensions.json\n*.code-workspace\n"),
        ("intellij", ".idea/\n*.iml\n*.iws\n*.ipr\nout/\n"),
        ("vim", "[._]*.s[a-v][a-z]\n[._]*.sw[a-p]\n[._]s[a-rt-v][a-z]\n[._]ss[a-gi-z]\n[._]sw[a-p]\nSession.vim\nSessionx.vim\n.netrwhist\n*~\ntags\n"),
        ("emacs", "*~\n\\#*\\#\n/.emacs.desktop\n/.emacs.desktop.lock\n*.elc\nauto-save-list\ntramp\n.\\#*\n"),
        ("linux", "*~\n.fuse_hidden*\n.directory\n.Trash-*\n.nfs*\n"),
        ("macos", ".DS_Store\n.AppleDouble\n.LSOverride\n._*\n.Spotlight-V100\n.Trashes\n"),
        ("windows", "Thumbs.db\nThumbs.db:encryptable\nehthumbs.db\n*.stackdump\n[Dd]esktop.ini\n$RECYCLE.BIN/\n*.lnk\n"),
    ];
    assert(crate::detect::row_views(r@) =~= builtin_templates());
    r
}

/// The text of the first row whose tag is `name`.
pub open spec fn table_lookup(table: Seq<(Seq<char>, Seq<char>)>, name: Seq<char>) -> Option<Seq<char>>
    decreases table.len(),
{
    if table.len() == 0 {
        None
    } else if table[0].0 == name {
        Some(table[0].1)
    } else {
        table_lookup(table.drop_first(), name)
    }
}

/// The built-in template of a lower-case tag.
pub fn builtin_template(name: &str) -> (r: Option<String>)
    ensures
        match r {
            Some(t) => table_lookup(builtin_templates(), name@) == Some(t@),
            None => table_lookup(builtin_templates(), name@) is None,
        },
{
    let rows = builtin_rows();
    let key = str_chars(name);
    let ghost tv = crate::detect::row_views(rows@);
    let mut i: usize = 0;
    assert(tv.skip(0) =~= tv);
    while i < rows.len()
        invariant
            i <= rows.len(),
            tv == crate::detect::row_views(rows@),
            tv == builtin_templates(),
            key@ == name@,
            table_lookup(tv, name@) == table_lookup(tv.skip(i as int), name@),
        decreases rows.len() - i,
    {
        let (n, t) = rows[i];
        let nc = str_chars(n);
        assert(tv.skip(i as int)[0] == (n@, t@));
        if chars_eq(&nc, &key) {
            return Some(String::from_str(t));
        }
        assert(tv.skip(i as int).drop_first() =~= tv.skip(i + 1));
        i += 1;
    }
    None
}

/// What the user's and the data directory held for one tag: the text of its
/// template file, where there was one.
#[derive(Clone, Debug)]
pub struct TemplateLookup {
    pub custom: Option<String>,
    pub data: Option<String>,
}

/// The views of a lookup's texts.
pub open spec fn opt_view(o: Option<String>) -> Option<Seq<char>> {
    match o {
        Some(s) => Some(s@),
        None => None,
    }
}

/// What one source holds for a lower-case tag.
pub open spec fn source_text(src: TemplateSource, name: Seq<char>, found: TemplateLookup) -> Option<
    Seq<char>,
> {
    match src {
        TemplateSource::Custom => opt_view(found.custom),
        TemplateSource::Data => opt_view(found.data),
        TemplateSource::Builtin => table_lookup(builtin_templates(), name),
    }
}

/// The first text along `order`.
pub open spec fn first_text(order: Seq<TemplateSource>, name: Seq<char>, found: TemplateLookup) -> Option<
    Seq<char>,
>
    decreases order.len(),
{
    if order.len() == 0 {
        None
    } else {
        match source_text(order[0], name, found) {
            Some(t) => Some(t),
            None => first_text(order.drop_first(), name, found),
        }
    }
}

/// The template that a lower-case tag resolves to.
pub open spec fn resolved(prefer_local: bool, name: Seq<char>, found: TemplateLookup) -> Option<Seq<char>> {
    first_text(source_order(prefer_local), name, found)
}

/// The sources in the order they are asked.
pub fn template_sources(prefer_local: bool) -> (r: Vec<TemplateSource>)
    ensures
        r@ == source_order(prefer_local),
{
    let r = if prefer_local {
        vec![TemplateSource::Custom, TemplateSource::Data, TemplateSource::Builtin]
    } else {
        vec![TemplateSource::Data, TemplateSource::Builtin, TemplateSource::Custom]
    };
    assert(r@ =~= source_order(prefer_local));
    r
}

/// The template of a lower-case tag: the first source in the preferred order that
/// holds one.
pub fn resolve_template(prefer_local: bool, name: &str, found: &TemplateLookup) -> (r: Option<String>)
    ensures
        opt_view(r) == resolved(prefer_local, name@, *found),
{
    let order = template_sources(prefer_local);
    let mut i: usize = 0;
    assert(order@.skip(0) =~= order@);
    while i < order.len()
        invariant
            i <= order.len(),
            order@ == source_order(prefer_local),
            resolved(prefer_local, name@, *found) == first_text(order@.skip(i as int), name@, *found),
        decreases order.len() - i,
    {
        assert(order@.skip(i as int)[0] == order@[i as int]);
        let text = match order[i] {
            TemplateSource::Custom => found.custom.clone(),
            TemplateSource::Data => found.data.clone(),
            TemplateSource::Builtin => builtin_template(name),
        };
        if text.is_some() {
            return text;
        }
        assert(order@.skip(i as int).drop_first() =~= order@.skip(i + 1));
        i += 1;
    }
    None
}

/// The name of the template file of a tag.
pub open spec fn file_name_of(name: Seq<char>) -> Seq<char> {
    lower_of(name) + "."@ + template_ext()
}

/// Resolves tags to templates and composes them.
pub struct TemplateManager {
    pub prefer_local: bool,
}

impl TemplateManager {
    pub fn new(config: &AppConfig) -> (r: TemplateManager)
        ensures
            r.prefer_local == config.templates.prefer_local,
    {
        TemplateManager { prefer_local: config.templates.prefer_local }
    }

    /// The name of the template file that holds a tag's template.
    pub fn template_file_name(name: &str) -> (r: String)
        ensures
            r@ == file_name_of(name@),
    {
        let lower = lowercase(name);
        let mut out = str_chars(lower.as_str());
        let ext = str_chars(".gitignore");
        proof {
            reveal_strlit(".gitignore");
            reveal_strlit(".");
            reveal_strlit("gitignore");
            assert(ext@ =~= "."@ + template_ext());
        }
        crate::text::append_chars(&mut out, &ext);
        chars_string(&out)
    }

    /// The template of a tag, matched without regard to case.
    pub fn get_template(&self, name: &str, found: &TemplateLookup) -> (r: Option<String>)
        ensures
            opt_view(r) == resolved(self.prefer_local, lower_of(name@), *found),
    {
        let lower = lowercase(name);
        resolve_template(self.prefer_local, lower.as_str(), found)
    }

    /// Resolves each tag (`found[i]` being what the directories held for
    /// `templates[i]`) and composes the templates in the order given.
    pub fn merge_templates(&self, templates: &Vec<String>, found: &Vec<TemplateLookup>) -> (r:
        Composition)
        requires
            templates.len() == found.len(),
        ensures
            r.content@ == composed_text(
                string_views(templates@),
                Seq::new(
                    templates.len() as nat,
                    |i: int| resolved(self.prefer_local, lower_of(templates@[i]@), found@[i]),
                ),
            ),
            string_views(r.missing@) == compose_model(
                string_views(templates@),
                Seq::new(
                    templates.len() as nat,
                    |i: int| resolved(self.prefer_local, lower_of(templates@[i]@), found@[i]),
                ),
            ).missing,
    {
        let mut texts: Vec<Option<String>> = Vec::new();
        let mut i: usize = 0;
        while i < templates.len()
            invariant
                i <= templates.len() == found.len(),
                texts.len() == i,
                forall|k: int|
                    0 <= k < i ==> opt_view(#[trigger] texts@[k]) == resolved(
                        self.prefer_local,
                        lower_of(templates@[k]@),
                        found@[k],
                    ),
            decreases templates.len() - i,
        {
            let t = self.get_template(templates[i].as_str(), &found[i]);
            texts.push(t);
            i += 1;
        }
        proof {
            assert(text_views(texts@) =~= Seq::new(
                templates.len() as nat,
                |i: int| resolved(self.prefer_local, lower_of(templates@[i]@), found@[i]),
            ));
        }
        compose_templates(templates, &texts)
    }
}

/// The tag a file name stands for: its stem, when its extension is the template
/// extension.
pub open spec fn template_stem(name: Seq<char>) -> Option<Seq<char>> {
    if extension(name) == Some(template_ext()) {
        Some(name.take(last_dot(name)->0))
    } else {
        None
    }
}

/// The tags of template files among `files`.
pub open spec fn stems_of(files: Seq<Seq<char>>) -> Set<Seq<char>> {
    Set::new(
        |t: Seq<char>| exists|k: int| 0 <= k < files.len() && template_stem(files[k]) == Some(t),
    )
}

/// Every tag that some source has a template for.
pub open spec fn available_set(custom_files: Seq<Seq<char>>, data_files: Seq<Seq<char>>) -> Set<
    Seq<char>,
> {
    Set::new(
        |t: Seq<char>|
            exists|k: int| 0 <= k < builtin_templates().len() && builtin_templates()[k].0 == t,
    ).union(stems_of(custom_files)).union(stems_of(data_files))
}

/// The tag of a template file's name.
pub fn template_stem_of(name: &str) -> (r: Option<String>)
    ensures
        opt_view(r) == template_stem(name@),
{
    let c = str_chars(name);
    let mut j: usize = c.len();
    assert(c@.take(j as int) =~= c@);
    while j > 0 && c[j - 1] != '.'
        invariant
            j <= c.len(),
            c@ == name@,
            last_dot(c@) == last_dot(c@.take(j as int)),
        decreases j,
    {
        assert(c@.take(j as int).drop_last() =~= c@.take(j - 1));
        j -= 1;
    }
    if j <= 1 {
        if j == 1 {
            assert(c@.take(1).last() == '.');
        }
        return None;
    }
    assert(c@.take(j as int).last() == '.');
    let mut ext: Vec<char> = Vec::new();
    let mut k: usize = j;
    while k < c.len()
        invariant
            j <= k <= c.len(),
            ext@ == c@.subrange(j as int, k as int),
        decreases c.len() - k,
    {
        ext.push(c[k]);
        assert(c@.subrange(j as int, k + 1) =~= c@.subrange(j as int, k as int).push(c@[k as int]));
        k += 1;
    }
    assert(ext@ =~= c@.skip(j as int));
    let want = str_chars("gitignore");
    if !chars_eq(&ext, &want) {
        return None;
    }
    let mut stem: Vec<char> = Vec::new();
    let mut m: usize = 0;
    while m < j - 1
        invariant
            m <= j - 1,
            j <= c.len(),
            stem@ == c@.take(m as int),
        decreases j - 1 - m,
    {
        stem.push(c[m]);
        assert(c@.take(m + 1) =~= c@.take(m as int).push(c@[m as int]));
        m += 1;
    }
    Some(chars_string(&stem))
}

fn add_stems(set: &mut TagSet, files: &Vec<String>)
    requires
        old(set).wf(),
    ensures
        final(set).wf(),
        final(set).view_tags().to_set() == old(set).view_tags().to_set().union(
            stems_of(string_views(files@)),
        ),
{
    let ghost fv = string_views(files@);
    let mut i: usize = 0;
    while i < files.len()
        invariant
            i <= files.len(),
            fv == string_views(files@),
            set.wf(),
            set.view_tags().to_set() == old(set).view_tags().to_set().union(stems_of(fv.take(i as int))),
        decreases files.len() - i,
    {
        if let Some(t) = template_stem_of(files[i].as_str()) {
            set.insert(t);
        }
        proof {
            let f1 = fv.take(i + 1);
            let f0 = fv.take(i as int);
            assert(fv[i as int] == files@[i as int]@);
            assert forall|t: Seq<char>| stems_of(f1).contains(t) <==> (stems_of(f0).contains(t)
                || template_stem(fv[i as int]) == Some(t)) by {
                if stems_of(f1).contains(t) {
                    let k = choose|k: int| 0 <= k < f1.len() && template_stem(#[trigger] f1[k]) == Some(t);
                    if k < i {
                        assert(f0[k] == f1[k]);
                    }
                }
                if stems_of(f0).contains(t) {
                    let k = choose|k: int| 0 <= k < f0.len() && template_stem(#[trigger] f0[k]) == Some(t);
                    assert(f1[k] == f0[k]);
                }
                if template_stem(fv[i as int]) == Some(t) {
                    assert(f1[i as int] == fv[i as int]);
                }
            }
            assert(set.view_tags().to_set() =~= old(set).view_tags().to_set().union(stems_of(f1)));
        }
        i += 1;
    }
    assert(fv.take(i as int) =~= fv);
}

/// Every tag that some source has a template for, in ascending order: the built-in
/// tags and the stems of the template files in the user's and the data directory.
pub fn list_available(custom_files: &Vec<String>, data_files: &Vec<String>) -> (r: Vec<String>)
    ensures
        string_views(r@) == ascending(
            available_set(string_views(custom_files@), string_views(data_files@)),
        ),
{
    let rows = builtin_rows();
    let ghost tv = crate::detect::row_views(rows@);
    let mut set = TagSet::new();
    let mut i: usize = 0;
    assert(set.view_tags().to_set() =~= Set::<Seq<char>>::empty());
    while i < rows.len()
        invariant
            i <= rows.len(),
            tv == crate::detect::row_views(rows@),
            tv == builtin_templates(),
            set.wf(),
            set.view_tags().to_set() == Set::new(
                |t: Seq<char>| exists|k: int| 0 <= k < i && tv[k].0 == t,
            ),
        decreases rows.len() - i,
    {
        let (n, _) = rows[i];
        set.insert(String::from_str(n));
        proof {
            assert(tv[i as int].0 == n@);
            let s1 = Set::new(|t: Seq<char>| exists|k: int| 0 <= k < i + 1 && tv[k].0 == t);
            let s0 = Set::new(|t: Seq<char>| exists|k: int| 0 <= k < i && tv[k].0 == t);
            assert forall|t: Seq<char>| s1.contains(t) <==> (s0.contains(t) || t == n@) by {
                if s1.contains(t) {
                    let k = choose|k: int| 0 <= k < i + 1 && tv[k].0 == t;
                    if k < i {
                        assert(s0.contains(t));
                    }
                }
            }
            assert(set.view_tags().to_set() =~= s1);
        }
        i += 1;
    }
    add_stems(&mut set, custom_files);
    add_stems(&mut set, data_files);
    proof {
        assert(set.view_tags().to_set() =~= available_set(
            string_views(custom_files@),
            string_views(data_files@),
        ));
        set.lemma_sorted();
        crate::tagset::lemma_ascending_of(set.view_tags());
    }
    set.to_vec()
}

/// The lower-case forms of `tags`.
pub open spec fn lowered(tags: Seq<String>) -> Set<Seq<char>> {
    Set::new(|t: Seq<char>| exists|k: int| 0 <= k < tags.len() && lower_of(tags[k]@) == t)
}

fn add_lowered(set: &mut TagSet, tags: &Vec<String>)
    requires
        old(set).wf(),
    ensures
        final(set).wf(),
        final(set).view_tags().to_set() == old(set).view_tags().to_set().union(lowered(tags@)),
{
    let mut i: usize = 0;
    while i < tags.len()
        invariant
            i <= tags.len(),
            set.wf(),
            set.view_tags().to_set() == old(set).view_tags().to_set().union(
                lowered(tags@.take(i as int)),
            ),
        decreases tags.len() - i,
    {
        let t = lowercase(tags[i].as_str());
        set.insert(t);
        proof {
            let g1 = tags@.take(i + 1);
            let g0 = tags@.take(i as int);
            assert forall|x: Seq<char>| lowered(g1).contains(x) <==> (lowered(g0).contains(x)
                || lower_of(tags@[i as int]@) == x) by {
                if lowered(g1).contains(x) {
                    let k = choose|k: int| 0 <= k < g1.len() && lower_of(#[trigger] g1[k]@) == x;
                    if k < i {
                        assert(g0[k] == g1[k]);
                    }
                }
                if lowered(g0).contains(x) {
                    let k = choose|k: int| 0 <= k < g0.len() && lower_of(#[trigger] g0[k]@) == x;
                    assert(g1[k] == g0[k]);
                }
                if lower_of(tags@[i as int]@) == x {
                    assert(g1[i as int] == tags@[i as int]);
                }
            }
            assert(set.view_tags().to_set() =~= old(set).view_tags().to_set().union(lowered(g1)));
        }
        i += 1;
    }
    assert(tags@.take(i as int) =~= tags@);
}

/// The tags a block is generated for, in ascending order: the detected ones, those
/// asked for, and those the configuration always adds, the last two in lower case.
pub fn collect_tags(detected: TagSet, added: &Vec<String>, always: &Vec<String>) -> (r: Vec<String>)
    requires
        detected.wf(),
    ensures
        string_views(r@) == ascending(
            detected.view_tags().to_set().union(lowered(added@)).union(lowered(always@)),
        ),
{
    let mut set = detected;
    add_lowered(&mut set, added);
    add_lowered(&mut set, always);
    proof {
        set.lemma_sorted();
        crate::tagset::lemma_ascending_of(set.view_tags());
    }
    set.to_vec()
}

} // verus!
