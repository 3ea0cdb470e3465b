//! What a template sync fetches: the list address, and for each listed name the
//! tag and the address of its template.
use vstd::prelude::*;

use crate::templates::{lower_of, lowercase};
use crate::text::{
    append_chars, chars_string, lines_of, split_lines, str_chars, string_views, trim, trim_chars,
    views,
};

verus! {

/// `s` without trailing slashes.
pub open spec fn trim_slashes(s: Seq<char>) -> Seq<char>
    decreases s.len(),
{
    if s.len() > 0 && s.last() == '/' {
        trim_slashes(s.drop_last())
    } else {
        s
    }
}

/// The address of the list of templates under `base`.
pub open spec fn list_url_of(base: Seq<char>) -> Seq<char> {
    trim_slashes(base) + "/list"@
}

/// The address of one template under `base`.
pub open spec fn template_url_of(base: Seq<char>, name: Seq<char>) -> Seq<char> {
    trim_slashes(base) + seq!['/'] + name
}

/// One template to fetch.
#[derive(Clone, Debug)]
pub struct SyncTarget {
    /// The tag, trimmed and in lower case.
    pub name: String,
    /// Where its template is fetched from.
    pub url: String,
}

fn trimmed_base(base: &str) -> (r: Vec<char>)
    ensures
        r@ == trim_slashes(base@),
{
    let mut c = str_chars(base);
    while c.len() > 0 && c[c.len() - 1] == '/'
        invariant
            trim_slashes(c@) == trim_slashes(base@),
        decreases c.len(),
    {
        c.pop();
        assert(trim_slashes(c@) == trim_slashes(base@));
    }
    c
}

/// The address of the list of templates under `base`.
pub fn sync_list_url(base: &str) -> (r: String)
    ensures
        r@ == list_url_of(base@),
{
    let mut out = trimmed_base(base);
    let tail = str_chars("/list");
    append_chars(&mut out, &tail);
    chars_string(&out)
}

/// The address of the template of `name` under `base`.
pub fn sync_template_url(base: &str, name: &str) -> (r: String)
    ensures
        r@ == template_url_of(base@, name@),
{
    let mut url = trimmed_base(base);
    url.push('/');
    let nc = str_chars(name);
    append_chars(&mut url, &nc);
    chars_string(&url)
}

/// Whether a line holds more than whitespace.
pub open spec fn nonblank(l: Seq<char>) -> bool {
    trim(l).len() > 0
}

/// The name a line of the list gives: trimmed and in lower case.
pub open spec fn listed_name(l: Seq<char>) -> Seq<char> {
    lower_of(trim(l))
}

/// The names listed in `list_text`, one per line, trimmed and lower-cased, empty
/// ones left out.
pub open spec fn listed_names(list_text: Seq<char>) -> Seq<Seq<char>> {
    lines_of(list_text).filter(|l: Seq<char>| nonblank(l)).map_values(
        |l: Seq<char>| listed_name(l),
    )
}

/// What a sync fetches, in the order the list gives: for each listed name, its tag
/// and the address of its template under `base`.
pub fn sync_targets(base: &str, list_text: &str) -> (r: Vec<SyncTarget>)
    ensures
        r@.len() == listed_names(list_text@).len(),
        forall|i: int|
            0 <= i < r@.len() ==> (#[trigger] r@[i]).name@ == listed_names(list_text@)[i]
                && r@[i].url@ == template_url_of(base@, listed_names(list_text@)[i]),
{
    let text = str_chars(list_text);
    let lines = split_lines(&text);
    let ghost ls = views(lines@);
    let mut out: Vec<SyncTarget> = Vec::new();
    let mut i: usize = 0;
    while i < lines.len()
        invariant
            i <= lines.len(),
            ls == views(lines@),
            ls == lines_of(list_text@),
            out@.len() == ls.take(i as int).filter(|l: Seq<char>| nonblank(l)).len(),
            forall|k: int|
                0 <= k < out@.len() ==> (#[trigger] out@[k]).name@ == ls.take(i as int).filter(|l: Seq<char>| nonblank(l)).map_values(|l: Seq<char>| listed_name(l))[k] && out@[k].url@ == template_url_of(
                    base@,
                    ls.take(i as int).filter(|l: Seq<char>| nonblank(l)).map_values(|l: Seq<char>| listed_name(l))[k],
                ),
        decreases lines.len() - i,
    {
        let t = trim_chars(&lines[i]);
        proof {
            assert(ls.take(i + 1) =~= ls.take(i as int).push(lines@[i as int]@));
            ls.take(i as int).lemma_filter_push(lines@[i as int]@, |l: Seq<char>| nonblank(l));
        }
        if t.len() > 0 {
            let ts = chars_string(&t);
            let name = lowercase(ts.as_str());
            let url = sync_template_url(base, name.as_str());
            let ghost before = out@;
            out.push(SyncTarget { name, url });
            proof {
                assert(nonblank(lines@[i as int]@));
                assert(name@ == listed_name(lines@[i as int]@));
                assert(ls.take(i + 1).filter(|l: Seq<char>| nonblank(l)) == ls.take(i as int).filter(|l: Seq<char>| nonblank(l)).push(
                    lines@[i as int]@,
                ));
                assert(ls.take(i + 1).filter(|l: Seq<char>| nonblank(l)).map_values(|l: Seq<char>| listed_name(l)) =~= ls.take(i as int).filter(|l: Seq<char>| nonblank(l)).map_values(|l: Seq<char>| listed_name(l)).push(listed_name(lines@[i as int]@)));
                assert forall|k: int| 0 <= k < out@.len() implies (#[trigger] out@[k]).name@
                    == ls.take(i + 1).filter(|l: Seq<char>| nonblank(l)).map_values(|l: Seq<char>| listed_name(l))[k] && out@[k].url@
                    == template_url_of(base@, ls.take(i + 1).filter(|l: Seq<char>| nonblank(l)).map_values(|l: Seq<char>| listed_name(l))[k]) by {
                    if k < before.len() {
                        assert(out@[k] == before[k]);
                    } else {
                        assert(out@[k].name@ == name@);
                        assert(ls.take(i + 1).filter(|l: Seq<char>| nonblank(l)).map_values(|l: Seq<char>| listed_name(l))[k] == listed_name(lines@[i as int]@));
                    }
                }
            }
        } else {
            proof {
                assert(!nonblank(lines@[i as int]@));
                assert(ls.take(i + 1).filter(|l: Seq<char>| nonblank(l)) == ls.take(i as int).filter(|l: Seq<char>| nonblank(l)));
            }
        }
        i += 1;
    }
    assert(ls.take(i as int) =~= ls);
    out
}

} // verus!
