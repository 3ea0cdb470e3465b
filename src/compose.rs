//! Composition of templates into one sectioned block: every line is kept at its
//! first appearance across all templates (compared after trimming), and each
//! template that keeps a line gets a section of its own.
use vstd::prelude::*;

use crate::text::{
    all_ws, append_chars, chars_eq, chars_string, lemma_blank_text_lines, lines_of,
    split_lines, str_chars, string_views, trim, trim_chars, views,
};

verus! {

/// The state of a composition after some of its templates.
pub struct ComposeModel {
    /// Trimmed forms of the lines kept so far, in order.
    pub seen: Seq<Seq<char>>,
    /// Tag and kept lines of each section, in order.
    pub sections: Seq<(Seq<char>, Seq<Seq<char>>)>,
    /// Tags whose template was not found, in order.
    pub missing: Seq<Seq<char>>,
}

/// The views of a sequence of optional strings.
pub open spec fn text_views(v: Seq<Option<String>>) -> Seq<Option<Seq<char>>> {
    v.map_values(|o: Option<String>| match o {
        Some(s) => Some(s@),
        None => None,
    })
}

/// After the first `k` of `lines`, starting from `seen`: the trimmed forms seen and
/// the lines kept.
pub open spec fn keep_lines(seen: Seq<Seq<char>>, lines: Seq<Seq<char>>, k: nat) -> (
    Seq<Seq<char>>,
    Seq<Seq<char>>,
)
    decreases k,
{
    if k == 0 {
        (seen, Seq::empty())
    } else {
        let (s, kept) = keep_lines(seen, lines, (k - 1) as nat);
        let t = trim(lines[k - 1]);
        if t.len() > 0 && !s.contains(t) {
            (s.push(t), kept.push(lines[k - 1]))
        } else {
            (s, kept)
        }
    }
}

/// The state before any template.
pub open spec fn empty_model() -> ComposeModel {
    ComposeModel { seen: Seq::empty(), sections: Seq::empty(), missing: Seq::empty() }
}

/// One template added to the composition: a missing one is recorded, a found one
/// keeps its new lines, and gets a section if it kept any.
pub open spec fn compose_step(m: ComposeModel, tag: Seq<char>, text: Option<Seq<char>>) -> ComposeModel {
    match text {
        None => ComposeModel { missing: m.missing.push(tag), ..m },
        Some(t) => {
            let ls = lines_of(t);
            let (s, kept) = keep_lines(m.seen, ls, ls.len());
            ComposeModel {
                seen: s,
                sections: if kept.len() > 0 {
                    m.sections.push((tag, kept))
                } else {
                    m.sections
                },
                missing: m.missing,
            }
        },
    }
}

/// The composition of the first `k` templates.
pub open spec fn compose_prefix(
    tags: Seq<Seq<char>>,
    texts: Seq<Option<Seq<char>>>,
    k: nat,
) -> ComposeModel
    decreases k,
{
    if k == 0 {
        empty_model()
    } else {
        compose_step(compose_prefix(tags, texts, (k - 1) as nat), tags[k - 1], texts[k - 1])
    }
}

/// The composition of all templates, `texts[i]` being what the tag `tags[i]`
/// resolved to.
pub open spec fn compose_model(tags: Seq<Seq<char>>, texts: Seq<Option<Seq<char>>>) -> ComposeModel {
    compose_prefix(tags, texts, tags.len())
}

/// `# === <tag> ===` and a line feed.
pub open spec fn marker(tag: Seq<char>) -> Seq<char> {
    "# === "@ + tag + " ===\n"@
}

/// Each line followed by a line feed.
pub open spec fn lines_text(lines: Seq<Seq<char>>) -> Seq<char>
    decreases lines.len(),
{
    if lines.len() == 0 {
        Seq::empty()
    } else {
        lines_text(lines.drop_last()) + lines.last() + seq!['\n']
    }
}

/// The sections rendered in order, one blank line between two of them.
pub open spec fn render(sections: Seq<(Seq<char>, Seq<Seq<char>>)>) -> Seq<char>
    decreases sections.len(),
{
    if sections.len() == 0 {
        Seq::empty()
    } else {
        let prev = render(sections.drop_last());
        let sep = if prev.len() > 0 {
            seq!['\n']
        } else {
            Seq::empty()
        };
        prev + sep + marker(sections.last().0) + lines_text(sections.last().1)
    }
}

/// The composed block of the tags and their template texts.
pub open spec fn composed_text(tags: Seq<Seq<char>>, texts: Seq<Option<Seq<char>>>) -> Seq<char> {
    render(compose_model(tags, texts).sections)
}

/// The kept lines of all sections, in order.
pub open spec fn section_lines(sections: Seq<(Seq<char>, Seq<Seq<char>>)>) -> Seq<Seq<char>>
    decreases sections.len(),
{
    if sections.len() == 0 {
        Seq::empty()
    } else {
        section_lines(sections.drop_last()) + sections.last().1
    }
}

proof fn lemma_keep_lines_seen(seen: Seq<Seq<char>>, lines: Seq<Seq<char>>, k: nat)
    requires
        k <= lines.len(),
        seen.no_duplicates(),
    ensures
        keep_lines(seen, lines, k).0 == seen + keep_lines(seen, lines, k).1.map_values(
            |l: Seq<char>| trim(l),
        ),
        keep_lines(seen, lines, k).0.no_duplicates(),
    decreases k,
{
    let f = |l: Seq<char>| trim(l);
    if k == 0 {
        assert(seen + Seq::<Seq<char>>::empty().map_values(f) =~= seen);
    } else {
        lemma_keep_lines_seen(seen, lines, (k - 1) as nat);
        let (s, kept) = keep_lines(seen, lines, (k - 1) as nat);
        let t = trim(lines[k - 1]);
        if t.len() > 0 && !s.contains(t) {
            assert(kept.push(lines[k - 1]).map_values(f) =~= kept.map_values(f).push(t));
            assert(s.push(t) =~= seen + kept.push(lines[k - 1]).map_values(f));
            assert forall|a: int, b: int|
                0 <= a < s.push(t).len() && 0 <= b < s.push(t).len() && a != b implies s.push(
                    t,
                )[a] != s.push(t)[b] by {
                if a < s.len() && b < s.len() {
                } else if a == s.len() {
                    assert(s[b] == s.push(t)[b]);
                } else {
                    assert(s[a] == s.push(t)[a]);
                }
            }
        }
    }
}

proof fn lemma_prefix_seen(tags: Seq<Seq<char>>, texts: Seq<Option<Seq<char>>>, k: nat)
    requires
        k <= tags.len(),
        k <= texts.len(),
    ensures
        compose_prefix(tags, texts, k).seen == section_lines(
            compose_prefix(tags, texts, k).sections,
        ).map_values(|l: Seq<char>| trim(l)),
        compose_prefix(tags, texts, k).seen.no_duplicates(),
    decreases k,
{
    let f = |l: Seq<char>| trim(l);
    if k == 0 {
        assert(section_lines(Seq::empty()).map_values(f) =~= Seq::<Seq<char>>::empty());
    } else {
        let m = compose_prefix(tags, texts, (k - 1) as nat);
        lemma_prefix_seen(tags, texts, (k - 1) as nat);
        if let Some(t) = texts[k - 1] {
            let ls = lines_of(t);
            lemma_keep_lines_seen(m.seen, ls, ls.len());
            let (s, kept) = keep_lines(m.seen, ls, ls.len());
            if kept.len() > 0 {
                let secs = m.sections.push((tags[k - 1], kept));
                assert(secs.drop_last() =~= m.sections);
                assert((section_lines(m.sections) + kept).map_values(f) =~= section_lines(
                    m.sections,
                ).map_values(f) + kept.map_values(f));
            } else {
                assert(s =~= m.seen);
            }
        }
    }
}

/// No line occurs twice in a composed block once lines are compared after trimming:
/// over all sections together, the kept lines have pairwise different trimmed forms.
pub proof fn lemma_composed_lines_unique(tags: Seq<Seq<char>>, texts: Seq<Option<Seq<char>>>)
    requires
        tags.len() == texts.len(),
    ensures
        forall|a: int, b: int|
            0 <= a < b < section_lines(compose_model(tags, texts).sections).len() ==> trim(
                #[trigger] section_lines(compose_model(tags, texts).sections)[a],
            ) != trim(#[trigger] section_lines(compose_model(tags, texts).sections)[b]),
{
    lemma_prefix_seen(tags, texts, tags.len());
    let ls = section_lines(compose_model(tags, texts).sections);
    let seen = compose_model(tags, texts).seen;
    assert forall|a: int, b: int| 0 <= a < b < ls.len() implies trim(#[trigger] ls[a]) != trim(
        #[trigger] ls[b],
    ) by {
        assert(seen[a] == trim(ls[a]));
        assert(seen[b] == trim(ls[b]));
    }
}

/// The composed block is a function of the tags and template texts alone: two
/// compositions of the same tags over the same texts give the same block and the
/// same missing tags.
pub proof fn lemma_composition_deterministic(
    tags1: Seq<Seq<char>>,
    texts1: Seq<Option<Seq<char>>>,
    tags2: Seq<Seq<char>>,
    texts2: Seq<Option<Seq<char>>>,
)
    requires
        tags1 == tags2,
        texts1 == texts2,
    ensures
        composed_text(tags1, texts1) == composed_text(tags2, texts2),
        compose_model(tags1, texts1).missing == compose_model(tags2, texts2).missing,
{
}

proof fn lemma_prefix_agree(
    t1: Seq<Seq<char>>,
    x1: Seq<Option<Seq<char>>>,
    t2: Seq<Seq<char>>,
    x2: Seq<Option<Seq<char>>>,
    k: nat,
)
    requires
        k <= t1.len(),
        k <= x1.len(),
        k <= t2.len(),
        k <= x2.len(),
        forall|j: int| 0 <= j < k ==> t1[j] == t2[j] && x1[j] == x2[j],
    ensures
        compose_prefix(t1, x1, k) == compose_prefix(t2, x2, k),
    decreases k,
{
    if k > 0 {
        lemma_prefix_agree(t1, x1, t2, x2, (k - 1) as nat);
    }
}

/// Removing a template whose step leaves the kept lines and sections unchanged
/// changes nothing later but the missing tags.
proof fn lemma_skip_inert(tags: Seq<Seq<char>>, texts: Seq<Option<Seq<char>>>, i: int, k: nat)
    requires
        tags.len() == texts.len(),
        0 <= i < k <= tags.len(),
        compose_step(compose_prefix(tags, texts, i as nat), tags[i], texts[i]).seen
            == compose_prefix(tags, texts, i as nat).seen,
        compose_step(compose_prefix(tags, texts, i as nat), tags[i], texts[i]).sections
            == compose_prefix(tags, texts, i as nat).sections,
        texts[i] is Some ==> compose_step(
            compose_prefix(tags, texts, i as nat),
            tags[i],
            texts[i],
        ).missing == compose_prefix(tags, texts, i as nat).missing,
    ensures
        ({
            let f = compose_prefix(tags, texts, k);
            let g = compose_prefix(tags.remove(i), texts.remove(i), (k - 1) as nat);
            let p = compose_prefix(tags, texts, i as nat).missing.len();
            &&& f.seen == g.seen
            &&& f.sections == g.sections
            &&& p <= g.missing.len()
            &&& f.missing == if texts[i] is None {
                g.missing.insert(p as int, tags[i])
            } else {
                g.missing
            }
        }),
    decreases k,
{
    let t2 = tags.remove(i);
    let x2 = texts.remove(i);
    let m = compose_prefix(tags, texts, i as nat);
    if k == i + 1 {
        lemma_prefix_agree(tags, texts, t2, x2, i as nat);
        if texts[i] is None {
            assert(m.missing.push(tags[i]) =~= m.missing.insert(m.missing.len() as int, tags[i]));
        }
    } else {
        lemma_skip_inert(tags, texts, i, (k - 1) as nat);
        let f0 = compose_prefix(tags, texts, (k - 1) as nat);
        let g0 = compose_prefix(t2, x2, (k - 2) as nat);
        assert(t2[k - 2] == tags[k - 1]);
        assert(x2[k - 2] == texts[k - 1]);
        if texts[k - 1] is None && texts[i] is None {
            let p = m.missing.len() as int;
            assert(g0.missing.insert(p, tags[i]).push(tags[k - 1]) =~= g0.missing.push(
                tags[k - 1],
            ).insert(p, tags[i]));
        }
    }
}

/// A tag whose template is not found contributes no section: the block is the one
/// composed without it, and the tag is recorded once among the missing ones, where
/// it stands in the order of the tags.
pub proof fn lemma_missing_template_skipped(
    tags: Seq<Seq<char>>,
    texts: Seq<Option<Seq<char>>>,
    i: int,
)
    requires
        tags.len() == texts.len(),
        0 <= i < tags.len(),
        texts[i] is None,
    ensures
        composed_text(tags, texts) == composed_text(tags.remove(i), texts.remove(i)),
        compose_model(tags, texts).missing == compose_model(
            tags.remove(i),
            texts.remove(i),
        ).missing.insert(compose_prefix(tags, texts, i as nat).missing.len() as int, tags[i]),
{
    lemma_skip_inert(tags, texts, i, tags.len());
}

proof fn lemma_keep_blank(seen: Seq<Seq<char>>, lines: Seq<Seq<char>>, k: nat)
    requires
        k <= lines.len(),
        forall|j: int| 0 <= j < lines.len() ==> trim(#[trigger] lines[j]).len() == 0,
    ensures
        keep_lines(seen, lines, k) == (seen, Seq::<Seq<char>>::empty()),
    decreases k,
{
    if k > 0 {
        lemma_keep_blank(seen, lines, (k - 1) as nat);
        assert(trim(lines[k - 1]).len() == 0);
    }
}

/// A template of whitespace alone contributes no section and no marker line: the
/// block and the missing tags are those composed without it.
pub proof fn lemma_blank_template_no_section(
    tags: Seq<Seq<char>>,
    texts: Seq<Option<Seq<char>>>,
    i: int,
)
    requires
        tags.len() == texts.len(),
        0 <= i < tags.len(),
        texts[i] is Some,
        all_ws(texts[i]->0),
    ensures
        composed_text(tags, texts) == composed_text(tags.remove(i), texts.remove(i)),
        compose_model(tags, texts).sections == compose_model(tags.remove(i), texts.remove(i)).sections,
        compose_model(tags, texts).missing == compose_model(tags.remove(i), texts.remove(i)).missing,
{
    let ls = lines_of(texts[i]->0);
    lemma_blank_text_lines(texts[i]->0);
    lemma_keep_blank(compose_prefix(tags, texts, i as nat).seen, ls, ls.len());
    lemma_skip_inert(tags, texts, i, tags.len());
}

/// The composed block, and the tags for which no template was found.
pub struct Composition {
    pub content: String,
    pub missing: Vec<String>,
}

/// Whether `t` is among the lines of `seen`.
fn contains_line(seen: &Vec<Vec<char>>, t: &Vec<char>) -> (r: bool)
    ensures
        r == views(seen@).contains(t@),
{
    let mut i: usize = 0;
    while i < seen.len()
        invariant
            i <= seen.len(),
            forall|k: int| 0 <= k < i ==> views(seen@)[k] != t@,
        decreases seen.len() - i,
    {
        if chars_eq(&seen[i], t) {
            assert(views(seen@)[i as int] == t@);
            return true;
        }
        i += 1;
    }
    false
}

/// Keeps the lines whose trimmed form is not empty and not yet in `seen`, adding
/// each kept line's trimmed form to `seen`.
fn keep_template_lines(seen: &mut Vec<Vec<char>>, lines: &Vec<Vec<char>>) -> (r: Vec<Vec<char>>)
    ensures
        (views(final(seen)@), views(r@)) == keep_lines(views(old(seen)@), views(lines@), lines@.len()),
{
    let mut kept: Vec<Vec<char>> = Vec::new();
    let mut i: usize = 0;
    while i < lines.len()
        invariant
            i <= lines.len(),
            (views(seen@), views(kept@)) == keep_lines(views(old(seen)@), views(lines@), i as nat),
        decreases lines.len() - i,
    {
        let t = trim_chars(&lines[i]);
        assert(views(lines@)[i as int] == lines@[i as int]@);
        if t.len() > 0 && !contains_line(seen, &t) {
            seen.push(t);
            kept.push(lines[i].clone());
            assert(views(seen@) =~= keep_lines(views(old(seen)@), views(lines@), (i + 1) as nat).0);
            assert(views(kept@) =~= keep_lines(views(old(seen)@), views(lines@), (i + 1) as nat).1);
        }
        i += 1;
    }
    kept
}

/// Appends the lines, each followed by a line feed.
fn append_lines(out: &mut Vec<char>, lines: &Vec<Vec<char>>)
    ensures
        final(out)@ == old(out)@ + lines_text(views(lines@)),
{
    let mut i: usize = 0;
    while i < lines.len()
        invariant
            i <= lines.len(),
            out@ == old(out)@ + lines_text(views(lines@).take(i as int)),
        decreases lines.len() - i,
    {
        append_chars(out, &lines[i]);
        out.push('\n');
        proof {
            let v = views(lines@);
            assert(v.take(i + 1).drop_last() =~= v.take(i as int));
            assert(v.take(i + 1).last() == lines@[i as int]@);
        }
        i += 1;
    }
    assert(views(lines@).take(lines.len() as int) =~= views(lines@));
}

/// Appends a section, after a blank line when `out` already holds one.
fn append_section(out: &mut Vec<char>, tag: &Vec<char>, lines: &Vec<Vec<char>>)
    ensures
        final(out)@ == old(out)@ + (if old(out)@.len() > 0 {
            seq!['\n']
        } else {
            Seq::empty()
        }) + marker(tag@) + lines_text(views(lines@)),
{
    if out.len() > 0 {
        out.push('\n');
    }
    let open = str_chars("# === ");
    let close = str_chars(" ===\n");
    append_chars(out, &open);
    append_chars(out, tag);
    append_chars(out, &close);
    append_lines(out, lines);
    assert(final(out)@ =~= old(out)@ + (if old(out)@.len() > 0 {
        seq!['\n']
    } else {
        Seq::empty()
    }) + marker(tag@) + lines_text(views(lines@)));
}

/// Composes the templates `texts` of the tags `tags`, in the order given:
/// `texts[i]` is what `tags[i]` resolved to, `None` where no template was found.
pub fn compose_templates(tags: &Vec<String>, texts: &Vec<Option<String>>) -> (r: Composition)
    requires
        tags.len() == texts.len(),
    ensures
        r.content@ == composed_text(string_views(tags@), text_views(texts@)),
        string_views(r.missing@) == compose_model(string_views(tags@), text_views(texts@)).missing,
{
    let ghost ts = string_views(tags@);
    let ghost xs = text_views(texts@);
    let mut seen: Vec<Vec<char>> = Vec::new();
    let mut out: Vec<char> = Vec::new();
    let mut missing: Vec<String> = Vec::new();
    let mut i: usize = 0;
    assert(views(seen@) =~= Seq::<Seq<char>>::empty());
    assert(string_views(missing@) =~= Seq::<Seq<char>>::empty());
    while i < tags.len()
        invariant
            i <= tags.len() == texts.len(),
            ts == string_views(tags@),
            xs == text_views(texts@),
            views(seen@) == compose_prefix(ts, xs, i as nat).seen,
            out@ == render(compose_prefix(ts, xs, i as nat).sections),
            string_views(missing@) == compose_prefix(ts, xs, i as nat).missing,
        decreases tags.len() - i,
    {
        let ghost m = compose_prefix(ts, xs, i as nat);
        assert(ts[i as int] == tags@[i as int]@);
        match &texts[i] {
            None => {
                assert(xs[i as int] == None::<Seq<char>>);
                missing.push(tags[i].clone());
                assert(string_views(missing@) =~= m.missing.push(ts[i as int]));
            },
            Some(text) => {
                assert(xs[i as int] == Some(text@));
                let chars = str_chars(text.as_str());
                let lines = split_lines(&chars);
                let kept = keep_template_lines(&mut seen, &lines);
                if kept.len() > 0 {
                    let tag = str_chars(tags[i].as_str());
                    append_section(&mut out, &tag, &kept);
                    proof {
                        let sec = m.sections.push((ts[i as int], views(kept@)));
                        assert(sec.drop_last() =~= m.sections);
                    }
                }
            },
        }
        i += 1;
    }
    Composition { content: chars_string(&out), missing }
}

} // verus!
