//! The authoring tier: reading a partial selector, matching it against
//! an element's text, and the semantic diff of two accessibility trees
//! once each has been keyed.

use vstd::prelude::*;
use crate::text::{chars_of, chars_eq, contains_chars, contains_seq, lowercase, owned, slice_chars, split_once, split_once_chars, string_of, to_lowercase, trim, trim_chars};

verus! {

broadcast use vstd::string::group_string_axioms;

/// How `parse_partial` reads a partial selector: `(field, pattern)`.
pub open spec fn partial_parts(partial: Seq<char>) -> (Seq<char>, Seq<char>) {
    match split_once(partial, ':') {
        Some((k, v)) => {
            let k = trim(k);
            let v = trim(v);
            if k == "id"@ {
                ("id"@, v)
            } else if k == "text"@ {
                ("text"@, v)
            } else if k == "label"@ {
                ("label"@, v)
            } else {
                ("text"@, partial)
            }
        },
        None => ("text"@, partial),
    }
}

/// Read `partial` as `field: pattern` (`id: qa-*`), or fall back to a
/// text search for the whole of it.
pub fn parse_partial(partial: &str) -> (r: (&'static str, String))
    ensures
        (r.0@, r.1@) == partial_parts(partial@),
{
    let cs = chars_of(partial);
    match split_once_chars(cs.as_slice(), ':') {
        Some((k, v)) => {
            let k = trim_chars(k.as_slice());
            let v = trim_chars(v.as_slice());
            let id = chars_of("id");
            let text = chars_of("text");
            let label = chars_of("label");
            if chars_eq(k.as_slice(), id.as_slice()) {
                ("id", string_of(v.as_slice()))
            } else if chars_eq(k.as_slice(), text.as_slice()) {
                ("text", string_of(v.as_slice()))
            } else if chars_eq(k.as_slice(), label.as_slice()) {
                ("label", string_of(v.as_slice()))
            } else {
                ("text", owned(partial))
            }
        },
        None => ("text", owned(partial)),
    }
}

/// The text fields of one accessibility node that a partial selector
/// can match.
#[derive(Debug, Clone)]
pub struct NodeText {
    pub identifier: Option<String>,
    pub text: Option<String>,
    pub value: Option<String>,
    pub title: Option<String>,
    pub label: Option<String>,
}

/// The field a partial selector looks at.
pub open spec fn haystack(node: NodeText, field: Seq<char>) -> Option<Seq<char>> {
    if field == "id"@ {
        match node.identifier {
            Some(s) => Some(s@),
            None => None,
        }
    } else if field == "text"@ {
        match node.text {
            Some(s) => Some(s@),
            None => match node.value {
                Some(s) => Some(s@),
                None => match node.title {
                    Some(s) => Some(s@),
                    None => None,
                },
            },
        }
    } else if field == "label"@ {
        match node.label {
            Some(s) => Some(s@),
            None => None,
        }
    } else {
        None
    }
}

/// Whether a node matches: `*` matches any value; `p*` is a
/// case-insensitive prefix, `*p` a suffix, anything else a substring.
pub open spec fn node_matches(node: NodeText, field: Seq<char>, pattern: Seq<char>) -> bool {
    match haystack(node, field) {
        None => false,
        Some(h) => if pattern == seq!['*'] {
            true
        } else if pattern.len() > 0 && pattern.last() == '*' {
            let p = lowercase(pattern.drop_last());
            let l = lowercase(h);
            p.len() <= l.len() && l.take(p.len() as int) == p
        } else if pattern.len() > 0 && pattern[0] == '*' {
            let p = lowercase(pattern.drop_first());
            let l = lowercase(h);
            p.len() <= l.len() && l.skip(l.len() - p.len()) == p
        } else {
            contains_seq(lowercase(h), lowercase(pattern))
        },
    }
}

fn haystack_of<'a>(node: &'a NodeText, field: &str) -> (r: Option<&'a String>)
    ensures
        match r {
            Some(s) => haystack(*node, field@) == Some(s@),
            None => haystack(*node, field@) is None,
        },
{
    if str_eq_lit(field, "id") {
        node.identifier.as_ref()
    } else if str_eq_lit(field, "text") {
        match &node.text {
            Some(s) => Some(s),
            None => match &node.value {
                Some(s) => Some(s),
                None => node.title.as_ref(),
            },
        }
    } else if str_eq_lit(field, "label") {
        node.label.as_ref()
    } else {
        None
    }
}

fn str_eq_lit(a: &str, b: &str) -> (r: bool)
    ensures
        r == (a@ == b@),
{
    crate::text::str_eq(a, b)
}

/// Whether a node's field matches the pattern of a partial selector.
pub fn matches_partial(node: &NodeText, field: &str, pattern: &str) -> (r: bool)
    ensures
        r == node_matches(*node, field@, pattern@),
{
    let hay = match haystack_of(node, field) {
        None => return false,
        Some(h) => h,
    };
    let p = chars_of(pattern);
    proof {
        reveal_strlit("*");
    }
    if p.len() == 1 && p[0] == '*' {
        assert(p@ =~= seq!['*']);
        return true;
    }
    assert(p@ != seq!['*']);
    let l = chars_of(to_lowercase(hay.as_str()).as_str());
    if p.len() > 0 && p[p.len() - 1] == '*' {
        let stripped = string_of(slice_chars(p.as_slice(), 0, p.len() - 1).as_slice());
        assert(stripped@ =~= pattern@.drop_last());
        let lp = chars_of(to_lowercase(stripped.as_str()).as_str());
        if lp.len() > l.len() {
            return false;
        }
        let head = slice_chars(l.as_slice(), 0, lp.len());
        assert(head@ =~= l@.take(lp@.len() as int));
        return chars_eq(head.as_slice(), lp.as_slice());
    }
    if p.len() > 0 && p[0] == '*' {
        let n = p.len();
        let stripped = string_of(slice_chars(p.as_slice(), 1, n).as_slice());
        assert(stripped@ =~= pattern@.drop_first());
        let lp = chars_of(to_lowercase(stripped.as_str()).as_str());
        if lp.len() > l.len() {
            return false;
        }
        let ln = l.len();
        let tail = slice_chars(l.as_slice(), ln - lp.len(), ln);
        assert(tail@ =~= l@.skip(l@.len() - lp@.len()));
        return chars_eq(tail.as_slice(), lp.as_slice());
    }
    let lp = chars_of(to_lowercase(pattern).as_str());
    contains_chars(l.as_slice(), lp.as_slice())
}

/// The structural difference of two trees.
#[derive(Debug, Clone, PartialEq)]
pub struct TreeDiff {
    /// Nodes present in baseline but missing in current.
    pub missing: Vec<String>,
    /// Nodes present in current but not in baseline.
    pub extra: Vec<String>,
    /// Nodes with the same key but drifted text/value/label content.
    pub drifted: Vec<TreeDrift>,
}

/// Drift entry for a node present in both trees.
#[derive(Debug, Clone, PartialEq)]
pub struct TreeDrift {
    pub key: String,
    pub baseline: String,
    pub current: String,
}

impl TreeDiff {
    /// True when the trees are structurally identical with no drift.
    pub fn is_clean(&self) -> (r: bool)
        ensures
            r == (self.missing@.len() == 0 && self.extra@.len() == 0 && self.drifted@.len() == 0),
    {
        self.missing.len() == 0 && self.extra.len() == 0 && self.drifted.len() == 0
    }
}


/// Keyed tree contents by their characters: `(key, content)`.
pub open spec fn entries(v: Seq<(String, String)>) -> Seq<(Seq<char>, Seq<char>)> {
    v.map_values(|e: (String, String)| (e.0@, e.1@))
}

/// The content under `key`, the first entry that has it.
pub open spec fn lookup(m: Seq<(Seq<char>, Seq<char>)>, key: Seq<char>) -> Option<Seq<char>>
    decreases m.len(),
{
    if m.len() == 0 {
        None
    } else if m[0].0 == key {
        Some(m[0].1)
    } else {
        lookup(m.drop_first(), key)
    }
}

/// Keys of `a`, in order, that `b` does not have.
pub open spec fn keys_absent(a: Seq<(Seq<char>, Seq<char>)>, b: Seq<(Seq<char>, Seq<char>)>) -> Seq<Seq<char>>
    decreases a.len(),
{
    if a.len() == 0 {
        seq![]
    } else {
        keys_absent(a.drop_last(), b) + if lookup(b, a.last().0) is None {
            seq![a.last().0]
        } else {
            seq![]
        }
    }
}

/// Entries of `base`, in order, whose key `curr` has with other content:
/// `(key, baseline content, current content)`.
pub open spec fn drifts(base: Seq<(Seq<char>, Seq<char>)>, curr: Seq<(Seq<char>, Seq<char>)>) -> Seq<(Seq<char>, Seq<char>, Seq<char>)>
    decreases base.len(),
{
    if base.len() == 0 {
        seq![]
    } else {
        drifts(base.drop_last(), curr) + match lookup(curr, base.last().0) {
            Some(c) => if c != base.last().1 {
                seq![(base.last().0, base.last().1, c)]
            } else {
                seq![]
            },
            None => seq![],
        }
    }
}

pub open spec fn drift_views(v: Seq<TreeDrift>) -> Seq<(Seq<char>, Seq<char>, Seq<char>)> {
    v.map_values(|d: TreeDrift| (d.key@, d.baseline@, d.current@))
}

fn lookup_in(m: &[(String, String)], key: &String) -> (r: Option<String>)
    ensures
        match r {
            Some(c) => lookup(entries(m@), key@) == Some(c@),
            None => lookup(entries(m@), key@) is None,
        },
{
    let mut i: usize = 0;
    assert(entries(m@).skip(0) =~= entries(m@));
    while i < m.len()
        invariant
            i <= m@.len(),
            lookup(entries(m@), key@) == lookup(entries(m@).skip(i as int), key@),
        decreases m@.len() - i,
    {
        assert(entries(m@).skip(i as int)[0] == (m@[i as int].0@, m@[i as int].1@));
        assert(entries(m@).skip(i as int).drop_first() =~= entries(m@).skip(i + 1));
        if m[i].0 == *key {
            return Some(m[i].1.clone());
        }
        i = i + 1;
    }
    assert(entries(m@).skip(i as int).len() == 0);
    None
}

proof fn lemma_entries_take(v: Seq<(String, String)>, i: int)
    requires
        0 <= i < v.len(),
    ensures
        entries(v.take(i + 1)).drop_last() == entries(v.take(i)),
        entries(v.take(i + 1)).last() == (v[i].0@, v[i].1@),
        entries(v.take(i + 1)).len() == i + 1,
{
    assert(entries(v.take(i + 1)).drop_last() =~= entries(v.take(i)));
}

/// The semantic diff of two keyed trees (`(key, content)` in key order,
/// one entry per key): keys only the baseline has, keys only the current
/// tree has, and keys whose content drifted.
pub fn diff_keyed(baseline: &[(String, String)], current: &[(String, String)]) -> (d: TreeDiff)
    ensures
        crate::text::strs(d.missing@) == keys_absent(entries(baseline@), entries(current@)),
        crate::text::strs(d.extra@) == keys_absent(entries(current@), entries(baseline@)),
        drift_views(d.drifted@) == drifts(entries(baseline@), entries(current@)),
{
    let ghost b = entries(baseline@);
    let ghost c = entries(current@);
    let mut missing: Vec<String> = Vec::new();
    let mut drifted: Vec<TreeDrift> = Vec::new();
    let mut i: usize = 0;
    while i < baseline.len()
        invariant
            i <= baseline@.len(),
            b == entries(baseline@),
            c == entries(current@),
            crate::text::strs(missing@) == keys_absent(entries(baseline@.take(i as int)), c),
            drift_views(drifted@) == drifts(entries(baseline@.take(i as int)), c),
        decreases baseline@.len() - i,
    {
        proof {
            lemma_entries_take(baseline@, i as int);
        }
        let key = &baseline[i].0;
        let base_content = &baseline[i].1;
        let ghost m0 = crate::text::strs(missing@);
        let ghost d0 = drift_views(drifted@);
        match lookup_in(current, key) {
            None => {
                missing.push(key.clone());
                assert(crate::text::strs(missing@) =~= m0.push(key@));
                assert(drift_views(drifted@) =~= d0 + Seq::<(Seq<char>, Seq<char>, Seq<char>)>::empty());
            },
            Some(curr_content) => {
                if curr_content != *base_content {
                    drifted.push(TreeDrift { key: key.clone(), baseline: base_content.clone(), current: curr_content });
                    assert(drift_views(drifted@) =~= d0.push((key@, base_content@, curr_content@)));
                } else {
                    assert(drift_views(drifted@) =~= d0 + Seq::<(Seq<char>, Seq<char>, Seq<char>)>::empty());
                }
                assert(crate::text::strs(missing@) =~= m0 + Seq::<Seq<char>>::empty());
            },
        }
        i = i + 1;
    }
    assert(baseline@.take(i as int) =~= baseline@);
    let mut extra: Vec<String> = Vec::new();
    let mut k: usize = 0;
    while k < current.len()
        invariant
            k <= current@.len(),
            b == entries(baseline@),
            crate::text::strs(extra@) == keys_absent(entries(current@.take(k as int)), b),
        decreases current@.len() - k,
    {
        proof {
            lemma_entries_take(current@, k as int);
        }
        let ghost e0 = crate::text::strs(extra@);
        match lookup_in(baseline, &current[k].0) {
            None => {
                extra.push(current[k].0.clone());
                assert(crate::text::strs(extra@) =~= e0.push(current@[k as int].0@));
            },
            Some(_) => {
                assert(crate::text::strs(extra@) =~= e0 + Seq::<Seq<char>>::empty());
            },
        }
        k = k + 1;
    }
    assert(current@.take(k as int) =~= current@);
    TreeDiff { missing, extra, drifted }
}

} // verus!
