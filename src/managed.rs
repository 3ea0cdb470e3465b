//! The managed block: its header line, and how a newly generated block is merged
//! into an existing file, by appending or by replacing the block generated before.
use vstd::prelude::*;

use crate::text::{
    append_chars, chars_string, occurs, starts_at, starts_at_exec, str_chars, string_views,
};

verus! {

/// How a generated block goes into an existing file.
#[derive(Clone, Copy, Debug, PartialEq, Eq, Structural)]
pub enum MergeMode {
    /// Replace the block generated before, if the file holds one.
    Replace,
    /// Add the block after the file's content, whatever it holds.
    Append,
}

/// The literal start of every header line; its first occurrence marks the block
/// that a replace overwrites.
pub open spec fn header_prefix() -> Seq<char> {
    "# ---- ignr (detected:"@
}

/// A line feed and the delimiter that starts the line ending a managed block.
pub open spec fn boundary_token() -> Seq<char> {
    "\n# ----"@
}

/// The first index at or after `i` where a header starts.
pub open spec fn find_header(s: Seq<char>, i: int) -> Option<int>
    decreases s.len() - i,
{
    if i < 0 || i >= s.len() {
        None
    } else if starts_at(s, i, header_prefix()) {
        Some(i)
    } else {
        find_header(s, i + 1)
    }
}

/// Whether the managed block ends at `q`: a line feed there starts a delimiter line
/// that is not itself another header.
pub open spec fn is_boundary(s: Seq<char>, q: int) -> bool {
    starts_at(s, q, boundary_token()) && !starts_at(s, q + 1, header_prefix())
}

/// The first index at or after `i` where the managed block ends.
pub open spec fn find_boundary(s: Seq<char>, i: int) -> Option<int>
    decreases s.len() - i,
{
    if i < 0 || i >= s.len() {
        None
    } else if is_boundary(s, i) {
        Some(i)
    } else {
        find_boundary(s, i + 1)
    }
}

/// `existing` followed by a line feed and `block`.
pub open spec fn appended(existing: Seq<char>, block: Seq<char>) -> Seq<char> {
    existing + seq!['\n'] + block
}

/// The file after a replace: the text before the first header, the new block, and
/// the text from the end of the old block on; without a header, an append.
pub open spec fn replaced(existing: Seq<char>, block: Seq<char>) -> Seq<char> {
    match find_header(existing, 0) {
        None => appended(existing, block),
        Some(start) => existing.take(start) + block + match find_boundary(existing, start) {
            Some(q) => existing.skip(q),
            None => Seq::empty(),
        },
    }
}

/// The file's text once `block` is merged into `existing` (absent: no file yet).
pub open spec fn merged(existing: Option<Seq<char>>, block: Seq<char>, mode: MergeMode) -> Seq<char> {
    match existing {
        None => block,
        Some(e) => match mode {
            MergeMode::Append => appended(e, block),
            MergeMode::Replace => replaced(e, block),
        },
    }
}

/// The tags joined with commas.
pub open spec fn join_tags(tags: Seq<Seq<char>>) -> Seq<char>
    decreases tags.len(),
{
    if tags.len() == 0 {
        Seq::empty()
    } else if tags.len() == 1 {
        tags[0]
    } else {
        join_tags(tags.drop_last()) + seq![','] + tags.last()
    }
}

/// The header line: `# ---- ignr (detected: <tags>) @ <date> ----` and a line feed.
pub open spec fn header_text(tags: Seq<Seq<char>>, date: Seq<char>) -> Seq<char> {
    "# ---- ignr (detected: "@ + join_tags(tags) + ") @ "@ + date + " ----\n"@
}

/// A whole generated block: the header, a blank line, and the composed sections.
pub open spec fn block_text(tags: Seq<Seq<char>>, date: Seq<char>, content: Seq<char>) -> Seq<char> {
    header_text(tags, date) + seq!['\n'] + content
}

/// Every generated block starts with the header prefix.
pub proof fn lemma_block_starts_with_prefix(
    tags: Seq<Seq<char>>,
    date: Seq<char>,
    content: Seq<char>,
)
    ensures
        starts_at(block_text(tags, date, content), 0, header_prefix()),
{
    reveal_strlit("# ---- ignr (detected:");
    reveal_strlit("# ---- ignr (detected: ");
    let b = block_text(tags, date, content);
    assert(b.subrange(0, header_prefix().len() as int) =~= header_prefix());
}

fn find_header_exec(s: &Vec<char>, prefix: &Vec<char>) -> (r: Option<usize>)
    requires
        prefix@ == header_prefix(),
    ensures
        match r {
            Some(i) => find_header(s@, 0) == Some(i as int),
            None => find_header(s@, 0) is None,
        },
        r matches Some(i) ==> i <= s.len(),
{
    let mut i: usize = 0;
    while i < s.len()
        invariant
            i <= s.len(),
            prefix@ == header_prefix(),
            find_header(s@, 0) == find_header(s@, i as int),
        decreases s.len() - i,
    {
        if starts_at_exec(s, i, prefix) {
            assert(find_header(s@, i as int) == Some(i as int));
            return Some(i);
        }
        assert(find_header(s@, i as int) == find_header(s@, i + 1));
        i += 1;
    }
    None
}

fn find_boundary_exec(s: &Vec<char>, start: usize, prefix: &Vec<char>, token: &Vec<char>) -> (r:
    Option<usize>)
    requires
        prefix@ == header_prefix(),
        token@ == boundary_token(),
        start <= s.len(),
    ensures
        match r {
            Some(i) => find_boundary(s@, start as int) == Some(i as int),
            None => find_boundary(s@, start as int) is None,
        },
        r matches Some(i) ==> start <= i <= s.len(),
{
    let mut i: usize = start;
    while i < s.len()
        invariant
            start <= i <= s.len(),
            prefix@ == header_prefix(),
            token@ == boundary_token(),
            find_boundary(s@, start as int) == find_boundary(s@, i as int),
        decreases s.len() - i,
    {
        if starts_at_exec(s, i, token) && !starts_at_exec(s, i + 1, prefix) {
            assert(find_boundary(s@, i as int) == Some(i as int));
            return Some(i);
        }
        assert(find_boundary(s@, i as int) == find_boundary(s@, i + 1));
        i += 1;
    }
    None
}

/// Merges a generated block into the text of an existing file, or makes it the
/// file's whole text when there is none.
pub fn merge_managed(existing: &Option<String>, block: &str, mode: MergeMode) -> (r: String)
    ensures
        r@ == merged(
            match existing {
                Some(e) => Some(e@),
                None => None,
            },
            block@,
            mode,
        ),
{
    let b = str_chars(block);
    match existing {
        None => chars_string(&b),
        Some(e) => {
            let text = str_chars(e.as_str());
            let prefix = str_chars("# ---- ignr (detected:");
            let token = str_chars("\n# ----");
            let found = match mode {
                MergeMode::Replace => find_header_exec(&text, &prefix),
                MergeMode::Append => None,
            };
            let mut out: Vec<char> = Vec::new();
            match found {
                None => {
                    append_chars(&mut out, &text);
                    out.push('\n');
                    append_chars(&mut out, &b);
                    assert(out@ =~= appended(text@, b@));
                },
                Some(start) => {
                    let mut i: usize = 0;
                    while i < start
                        invariant
                            start <= text.len(),
                            i <= start,
                            out@ == text@.take(i as int),
                        decreases start - i,
                    {
                        out.push(text[i]);
                        assert(text@.take(i + 1) =~= text@.take(i as int).push(text@[i as int]));
                        i += 1;
                    }
                    append_chars(&mut out, &b);
                    assert(find_header(text@, 0) == Some(start as int));
                    let tail_from = find_boundary_exec(&text, start, &prefix, &token);
                    let ghost head = out@;
                    assert(head == text@.take(start as int) + b@);
                    if let Some(q) = tail_from {
                        let mut k: usize = q;
                        while k < text.len()
                            invariant
                                q <= k <= text.len(),
                                out@ == head + text@.subrange(q as int, k as int),
                            decreases text.len() - k,
                        {
                            out.push(text[k]);
                            assert(text@.subrange(q as int, k + 1) =~= text@.subrange(
                                q as int,
                                k as int,
                            ).push(text@[k as int]));
                            k += 1;
                        }
                        assert(text@.subrange(q as int, text.len() as int) =~= text@.skip(q as int));
                    } else {
                        assert(out@ =~= head + Seq::<char>::empty());
                    }
                    assert(out@ =~= replaced(text@, b@));
                },
            }
            chars_string(&out)
        },
    }
}

/// The header line for the tags, dated `date`.
pub fn managed_header(tags: &Vec<String>, date: &str) -> (r: String)
    ensures
        r@ == header_text(string_views(tags@), date@),
{
    let mut out = str_chars("# ---- ignr (detected: ");
    let mut i: usize = 0;
    let ghost ts = string_views(tags@);
    let ghost start = out@;
    while i < tags.len()
        invariant
            i <= tags.len(),
            ts == string_views(tags@),
            out@ == start + join_tags(ts.take(i as int)),
        decreases tags.len() - i,
    {
        if i > 0 {
            out.push(',');
        }
        let t = str_chars(tags[i].as_str());
        append_chars(&mut out, &t);
        proof {
            let p = ts.take(i + 1);
            assert(p.drop_last() =~= ts.take(i as int));
            assert(p.last() == tags@[i as int]@);
            if i == 0 {
                assert(join_tags(ts.take(0)) =~= Seq::<char>::empty());
            }
        }
        i += 1;
    }
    assert(ts.take(tags.len() as int) =~= ts);
    let mid = str_chars(") @ ");
    let d = str_chars(date);
    let end = str_chars(" ----\n");
    append_chars(&mut out, &mid);
    append_chars(&mut out, &d);
    append_chars(&mut out, &end);
    chars_string(&out)
}

/// The whole generated block: the header line for the tags and date, a blank
/// line, and the composed sections.
pub fn generated_block(tags: &Vec<String>, date: &str, content: &str) -> (r: String)
    ensures
        r@ == block_text(string_views(tags@), date@, content@),
{
    let h = managed_header(tags, date);
    let mut out = str_chars(h.as_str());
    out.push('\n');
    let c = str_chars(content);
    append_chars(&mut out, &c);
    chars_string(&out)
}

/// In append mode nothing is searched: an existing file that already holds a
/// generated block holds two of them afterwards, the old one where it stood and
/// the new one after it.
pub proof fn lemma_append_keeps_prior_block(existing: Seq<char>, block: Seq<char>, at: int)
    requires
        starts_at(existing, at, header_prefix()),
        starts_at(block, 0, header_prefix()),
    ensures
        merged(Some(existing), block, MergeMode::Append) == existing + seq!['\n'] + block,
        starts_at(merged(Some(existing), block, MergeMode::Append), at, header_prefix()),
        starts_at(
            merged(Some(existing), block, MergeMode::Append),
            existing.len() + 1 as int,
            header_prefix(),
        ),
{
    let r = merged(Some(existing), block, MergeMode::Append);
    let n = header_prefix().len() as int;
    assert(r.subrange(at, at + n) =~= existing.subrange(at, at + n));
    let k = existing.len() + 1 as int;
    assert(r.subrange(k, k + n) =~= block.subrange(0, n));
}

proof fn lemma_find_header_none(s: Seq<char>, i: int)
    requires
        0 <= i,
        forall|j: int| i <= j ==> !starts_at(s, j, header_prefix()),
    ensures
        find_header(s, i) is None,
    decreases s.len() - i,
{
    if i < s.len() {
        lemma_find_header_none(s, i + 1);
    }
}

proof fn lemma_find_header_first(s: Seq<char>, i: int, at: int)
    requires
        0 <= i <= at,
        starts_at(s, at, header_prefix()),
        forall|j: int| i <= j < at ==> !starts_at(s, j, header_prefix()),
    ensures
        find_header(s, i) == Some(at),
    decreases at - i,
{
    reveal_strlit("# ---- ignr (detected:");
    if i < at {
        lemma_find_header_first(s, i + 1, at);
    }
}

proof fn lemma_find_boundary_first(s: Seq<char>, i: int, at: int)
    requires
        0 <= i <= at,
        is_boundary(s, at),
        forall|j: int| i <= j < at ==> !is_boundary(s, j),
    ensures
        find_boundary(s, i) == Some(at),
    decreases at - i,
{
    reveal_strlit("\n# ----");
    if i < at {
        lemma_find_boundary_first(s, i + 1, at);
    }
}

/// Replacing keeps what surrounds the old block: a file made of `before`, an old
/// block, a line feed and `after` becomes `before`, the new block, the line feed
/// and `after`, byte for byte. `before` holds no header; the old block starts with
/// one and holds no delimiter line; `after` starts with a delimiter line that is
/// not a header (else the old block would run to the end of the file).
pub proof fn lemma_replace_keeps_surroundings(
    before: Seq<char>,
    old_block: Seq<char>,
    after: Seq<char>,
    new_block: Seq<char>,
)
    requires
        !occurs(before, header_prefix()),
        starts_at(old_block, 0, header_prefix()),
        !occurs(old_block, boundary_token()),
        starts_at(after, 0, "# ----"@),
        !starts_at(after, 0, header_prefix()),
    ensures
        merged(Some(before + old_block + seq!['\n'] + after), new_block, MergeMode::Replace)
            == before + new_block + seq!['\n'] + after,
{
    reveal_strlit("# ---- ignr (detected:");
    reveal_strlit("\n# ----");
    reveal_strlit("# ----");
    let e = before + old_block + seq!['\n'] + after;
    let b = before.len() as int;
    let q = b + old_block.len();
    let hp = header_prefix();
    let tk = boundary_token();
    // The header: none starts inside `before`, and none straddles into the old block,
    // as the prefix's last character ':' occurs in it nowhere else.
    assert forall|j: int| 0 <= j < b implies !starts_at(e, j, hp) by {
        if starts_at(e, j, hp) {
            if j + hp.len() <= b {
                assert(e.subrange(j, j + hp.len()) =~= before.subrange(j, j + hp.len()));
                assert(starts_at(before, j, hp));
            } else {
                assert(e[j + hp.len() - 1] == hp[hp.len() - 1]);
                assert(e[j + hp.len() - 1] == old_block[j + hp.len() - 1 - b]);
                assert(old_block.subrange(0, hp.len() as int)[j + hp.len() - 1 - b] == hp[j
                    + hp.len() - 1 - b]);
                assert(e.subrange(j, j + hp.len())[hp.len() - 1] == e[j + hp.len() - 1]);
            }
        }
    }
    assert(e.subrange(b, b + hp.len()) =~= old_block.subrange(0, hp.len() as int));
    lemma_find_header_first(e, 0, b);
    // The boundary: the line feed before `after`, and no earlier one.
    assert(e.subrange(q, q + tk.len()) =~= seq!['\n'] + after.subrange(0, 6));
    assert(after.subrange(0, 6) =~= "# ----"@);
    assert(seq!['\n'] + "# ----"@ =~= tk);
    if starts_at(e, q + 1, hp) {
        assert(e.subrange(q + 1, q + 1 + hp.len()) =~= after.subrange(0, hp.len() as int));
        assert(starts_at(after, 0, hp));
    }
    assert forall|j: int| b <= j < q implies !is_boundary(e, j) by {
        if starts_at(e, j, tk) {
            if j + tk.len() <= q {
                assert(e.subrange(j, j + tk.len()) =~= old_block.subrange(j - b, j - b + tk.len()));
                assert(starts_at(old_block, j - b, tk));
            } else {
                assert(e.subrange(j, j + tk.len())[q - j] == e[q]);
                assert(e[q] == '\n');
            }
        }
    }
    lemma_find_boundary_first(e, b, q);
    assert(e.take(b) =~= before);
    assert(e.skip(q) =~= seq!['\n'] + after);
    assert(merged(Some(e), new_block, MergeMode::Replace) =~= before + new_block + seq!['\n']
        + after);
}

} // verus!
