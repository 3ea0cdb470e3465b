//! A set of tags kept as a strictly ascending sequence of strings, in the order of
//! their characters' code points (the order of `String`'s `Ord`).
use vstd::prelude::*;

use crate::text::{str_chars, string_views};

verus! {

/// Lexicographic order on characters by code point.
pub open spec fn lex_lt(a: Seq<char>, b: Seq<char>) -> bool
    decreases a.len(),
{
    if a.len() == 0 {
        b.len() > 0
    } else if b.len() == 0 {
        false
    } else if a[0] != b[0] {
        (a[0] as int) < (b[0] as int)
    } else {
        lex_lt(a.drop_first(), b.drop_first())
    }
}

/// Strictly ascending, hence free of duplicates.
pub open spec fn sorted_strict(s: Seq<Seq<char>>) -> bool {
    forall|i: int, j: int| 0 <= i < j < s.len() ==> lex_lt(#[trigger] s[i], #[trigger] s[j])
}

/// The ascending sequence that holds the members of a finite set.
pub open spec fn ascending(s: Set<Seq<char>>) -> Seq<Seq<char>> {
    choose|q: Seq<Seq<char>>| sorted_strict(q) && q.to_set() == s
}

/// No sequence comes before itself.
pub proof fn lemma_lex_irreflexive(a: Seq<char>)
    ensures
        !lex_lt(a, a),
    decreases a.len(),
{
    if a.len() > 0 {
        lemma_lex_irreflexive(a.drop_first());
    }
}

/// Of two different sequences, one comes before the other.
pub proof fn lemma_lex_total(a: Seq<char>, b: Seq<char>)
    ensures
        a != b ==> lex_lt(a, b) || lex_lt(b, a),
    decreases a.len(),
{
    if a.len() > 0 && b.len() > 0 && a[0] == b[0] {
        lemma_lex_total(a.drop_first(), b.drop_first());
        if a.drop_first() == b.drop_first() {
            assert(a =~= seq![a[0]] + a.drop_first());
            assert(b =~= seq![b[0]] + b.drop_first());
        }
    } else if a.len() == 0 && b.len() == 0 {
        assert(a =~= b);
    } else if a.len() > 0 && b.len() > 0 {
        assert((a[0] as int) != (b[0] as int));
    }
}

/// Two sequences do not each come before the other.
pub proof fn lemma_lex_asymmetric(a: Seq<char>, b: Seq<char>)
    ensures
        lex_lt(a, b) ==> !lex_lt(b, a),
    decreases a.len(),
{
    if a.len() > 0 && b.len() > 0 && a[0] == b[0] {
        lemma_lex_asymmetric(a.drop_first(), b.drop_first());
    }
}

/// The order is transitive.
pub proof fn lemma_lex_transitive(a: Seq<char>, b: Seq<char>, c: Seq<char>)
    requires
        lex_lt(a, b),
        lex_lt(b, c),
    ensures
        lex_lt(a, c),
    decreases a.len(),
{
    if a.len() > 0 && b.len() > 0 && c.len() > 0 && a[0] == b[0] && b[0] == c[0] {
        lemma_lex_transitive(a.drop_first(), b.drop_first(), c.drop_first());
    }
}

/// Two strictly ascending sequences with the same members are equal.
pub proof fn lemma_ascending_unique(p: Seq<Seq<char>>, q: Seq<Seq<char>>)
    requires
        sorted_strict(p),
        sorted_strict(q),
        p.to_set() == q.to_set(),
    ensures
        p == q,
    decreases p.len(),
{
    if p.len() == 0 {
        if q.len() > 0 {
            assert(q.to_set().contains(q[0]));
        }
        assert(p =~= q);
    } else if q.len() == 0 {
        assert(p.to_set().contains(p[0]));
    } else {
        let x = p.last();
        let y = q.last();
        assert(p.to_set().contains(x));
        assert(q.to_set().contains(y));
        assert(q.contains(x));
        assert(p.contains(y));
        // The largest members agree.
        if x != y {
            lemma_lex_total(x, y);
            let i = choose|i: int| 0 <= i < q.len() && q[i] == x;
            let j = choose|j: int| 0 <= j < p.len() && p[j] == y;
            if lex_lt(x, y) {
                assert(j < p.len() - 1 ==> lex_lt(p[j], x));
                if j == p.len() - 1 {
                    lemma_lex_irreflexive(x);
                } else {
                    lemma_lex_asymmetric(x, y);
                }
            } else {
                assert(i < q.len() - 1 ==> lex_lt(q[i], y));
                if i == q.len() - 1 {
                    lemma_lex_irreflexive(y);
                } else {
                    lemma_lex_asymmetric(y, x);
                }
            }
        }
        let p0 = p.drop_last();
        let q0 = q.drop_last();
        assert forall|z: Seq<char>| p0.to_set().contains(z) implies q0.to_set().contains(z) by {
            assert(p0.contains(z));
            let k = choose|k: int| 0 <= k < p0.len() && p0[k] == z;
            assert(lex_lt(p[k], x));
            assert(q.to_set().contains(z));
            let m = choose|m: int| 0 <= m < q.len() && q[m] == z;
            if m == q.len() - 1 {
                lemma_lex_irreflexive(x);
            }
            assert(q0[m] == z);
        }
        assert forall|z: Seq<char>| q0.to_set().contains(z) implies p0.to_set().contains(z) by {
            assert(q0.contains(z));
            let k = choose|k: int| 0 <= k < q0.len() && q0[k] == z;
            assert(lex_lt(q[k], y));
            assert(p.to_set().contains(z));
            let m = choose|m: int| 0 <= m < p.len() && p[m] == z;
            if m == p.len() - 1 {
                lemma_lex_irreflexive(y);
            }
            assert(p0[m] == z);
        }
        assert(p0.to_set() =~= q0.to_set());
        lemma_ascending_unique(p0, q0);
        assert(p =~= p0.push(x));
        assert(q =~= q0.push(y));
    }
}

/// A strictly ascending sequence is the ascending sequence of its members.
pub proof fn lemma_ascending_of(q: Seq<Seq<char>>)
    requires
        sorted_strict(q),
    ensures
        ascending(q.to_set()) == q,
{
    let s = q.to_set();
    assert(exists|r: Seq<Seq<char>>| sorted_strict(r) && r.to_set() == s);
    let r = ascending(s);
    lemma_ascending_unique(r, q);
}

/// Whether `a` comes before `b`.
pub fn lex_lt_exec(a: &Vec<char>, b: &Vec<char>) -> (r: bool)
    ensures
        r == lex_lt(a@, b@),
{
    let mut k: usize = 0;
    assert(a@.skip(0) =~= a@);
    assert(b@.skip(0) =~= b@);
    while k < a.len() && k < b.len() && a[k] == b[k]
        invariant
            k <= a.len(),
            k <= b.len(),
            lex_lt(a@, b@) == lex_lt(a@.skip(k as int), b@.skip(k as int)),
        decreases a.len() - k,
    {
        assert(a@.skip(k as int).drop_first() =~= a@.skip(k + 1));
        assert(b@.skip(k as int).drop_first() =~= b@.skip(k + 1));
        k += 1;
    }
    if k == a.len() {
        k < b.len()
    } else if k == b.len() {
        false
    } else {
        assert(a@.skip(k as int)[0] == a@[k as int]);
        assert(b@.skip(k as int)[0] == b@[k as int]);
        a[k] < b[k]
    }
}

/// A set of tags, held in ascending order.
pub struct TagSet {
    tags: Vec<String>,
}

impl TagSet {
    /// The tags, in ascending order.
    pub closed spec fn view_tags(&self) -> Seq<Seq<char>> {
        string_views(self.tags@)
    }

    pub closed spec fn wf(&self) -> bool {
        sorted_strict(self.view_tags())
    }

    /// A well-formed set is strictly ascending.
    pub proof fn lemma_sorted(&self)
        requires
            self.wf(),
        ensures
            sorted_strict(self.view_tags()),
    {
    }

    /// An empty set.
    pub fn new() -> (r: TagSet)
        ensures
            r.wf(),
            r.view_tags() == Seq::<Seq<char>>::empty(),
    {
        let r = TagSet { tags: Vec::new() };
        assert(r.view_tags() =~= Seq::<Seq<char>>::empty());
        r
    }

    /// The number of tags.
    pub fn len(&self) -> (r: usize)
        ensures
            r == self.view_tags().len(),
    {
        self.tags.len()
    }

    /// Whether the set holds no tag.
    pub fn is_empty(&self) -> (r: bool)
        ensures
            r == (self.view_tags().len() == 0),
    {
        self.tags.len() == 0
    }

    /// Adds `tag`, unless it is there already; the order stays ascending.
    pub fn insert(&mut self, tag: String)
        requires
            old(self).wf(),
        ensures
            final(self).wf(),
            final(self).view_tags().to_set() == old(self).view_tags().to_set().insert(tag@),
    {
        let ghost v0 = self.view_tags();
        let t = str_chars(tag.as_str());
        let mut i: usize = 0;
        while i < self.tags.len()
            invariant
                i <= self.tags.len(),
                self.view_tags() == v0,
                old(self).view_tags() == v0,
                sorted_strict(v0),
                t@ == tag@,
                forall|j: int| 0 <= j < i ==> lex_lt(#[trigger] v0[j], tag@),
            decreases self.tags.len() - i,
        {
            let cur = str_chars(self.tags[i].as_str());
            assert(v0[i as int] == self.tags@[i as int]@);
            if !lex_lt_exec(&cur, &t) {
                if cur.len() == t.len() && !lex_lt_exec(&t, &cur) {
                    proof {
                        lemma_lex_total(cur@, t@);
                        assert(v0[i as int] == tag@);
                        assert(v0.contains(tag@));
                        assert(v0.to_set().contains(tag@));
                        assert(v0.to_set().insert(tag@) =~= v0.to_set());
                    }
                    return ;
                }
                proof {
                    lemma_lex_total(cur@, t@);
                    if cur@ == t@ {
                        lemma_lex_irreflexive(t@);
                    }
                    assert(lex_lt(tag@, v0[i as int]));
                }
                self.tags.insert(i, tag);
                proof {
                    let v1 = self.view_tags();
                    assert(v1 =~= v0.insert(i as int, tag@));
                    assert forall|a: int, b: int| 0 <= a < b < v1.len() implies lex_lt(
                        #[trigger] v1[a],
                        #[trigger] v1[b],
                    ) by {
                        if b < i {
                        } else if b == i {
                        } else if a < i {
                            assert(v1[b] == v0[b - 1]);
                            if b - 1 > i {
                                lemma_lex_transitive(tag@, v0[i as int], v0[b - 1]);
                            }
                            lemma_lex_transitive(v0[a], tag@, v0[b - 1]);
                        } else if a == i {
                            assert(v1[b] == v0[b - 1]);
                            if b - 1 > i {
                                lemma_lex_transitive(tag@, v0[i as int], v0[b - 1]);
                            }
                        } else {
                            assert(v1[a] == v0[a - 1]);
                            assert(v1[b] == v0[b - 1]);
                        }
                    }
                    assert(v1.to_set() =~= v0.to_set().insert(tag@)) by {
                        assert forall|z: Seq<char>| v1.to_set().contains(z) implies v0.to_set().insert(
                            tag@,
                        ).contains(z) by {
                            let k = choose|k: int| 0 <= k < v1.len() && v1[k] == z;
                            if k < i {
                                assert(v0[k] == z);
                            } else if k > i {
                                assert(v0[k - 1] == z);
                            }
                        }
                        assert forall|z: Seq<char>| v0.to_set().insert(tag@).contains(z) implies v1.to_set().contains(
                            z,
                        ) by {
                            if z == tag@ {
                                assert(v1[i as int] == z);
                            } else {
                                let k = choose|k: int| 0 <= k < v0.len() && v0[k] == z;
                                if k < i {
                                    assert(v1[k] == z);
                                } else {
                                    assert(v1[k + 1] == z);
                                }
                            }
                        }
                    }
                }
                assert(self.view_tags().to_set() == v0.to_set().insert(tag@));
                return ;
            }
            i += 1;
        }
        self.tags.push(tag);
        proof {
            let v1 = self.view_tags();
            assert(v1 =~= v0.push(tag@));
            assert(v1.to_set() =~= v0.to_set().insert(tag@)) by {
                assert forall|z: Seq<char>| v1.to_set().contains(z) implies v0.to_set().insert(
                    tag@,
                ).contains(z) by {
                    let k = choose|k: int| 0 <= k < v1.len() && v1[k] == z;
                    if k < v0.len() {
                        assert(v0[k] == z);
                    }
                }
                assert forall|z: Seq<char>| v0.to_set().insert(tag@).contains(z) implies v1.to_set().contains(
                    z,
                ) by {
                    if z == tag@ {
                        assert(v1[v0.len() as int] == z);
                    } else {
                        let k = choose|k: int| 0 <= k < v0.len() && v0[k] == z;
                        assert(v1[k] == z);
                    }
                }
            }
        }
    }

    /// The tags, in ascending order.
    pub fn to_vec(&self) -> (r: Vec<String>)
        ensures
            string_views(r@) == self.view_tags(),
    {
        let mut out: Vec<String> = Vec::new();
        let mut i: usize = 0;
        while i < self.tags.len()
            invariant
                i <= self.tags.len(),
                out.len() == i,
                string_views(out@) == string_views(self.tags@).take(i as int),
            decreases self.tags.len() - i,
        {
            out.push(self.tags[i].clone());
            assert(out@[i as int] == self.tags@[i as int]);
            assert(string_views(out@) =~= string_views(self.tags@).take(i + 1));
            i += 1;
        }
        assert(string_views(self.tags@).take(i as int) =~= string_views(self.tags@));
        out
    }
}

} // verus!
