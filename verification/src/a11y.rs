//! Accessibility trees for authoring: suggesting selectors for a partial
//! one, and keying a tree for the semantic diff.
//!
//! A tree is handed over flattened in pre-order (a node, then each of its
//! children's subtrees in turn), each node with its role's name, its text
//! fields and its bounds truncated to whole pixels.

use vstd::prelude::*;
use crate::authoring::{
    diff_keyed, drift_views, drifts, entries, keys_absent, lookup, matches_partial, node_matches,
    parse_partial, partial_parts, NodeText, TreeDiff,
};
use crate::text::{chars_eq, chars_of, decimal, owned, push_char, push_decimal, push_str, string_of, strs};

verus! {

broadcast use vstd::string::group_string_axioms;

/// One node of a flattened tree.
#[derive(Debug, Clone)]
pub struct A11yEntry {
    /// The role's name, or the raw element type when it has no role.
    pub role: String,
    pub node: NodeText,
    pub bounds: Bounds,
}

/// A node's frame, each coordinate truncated to a whole pixel.
#[derive(Debug, Clone, Copy, PartialEq, Eq, Structural)]
pub struct Bounds {
    pub x: i32,
    pub y: i32,
    pub w: i32,
    pub h: i32,
}

/// A selector suggested for the node at `node` of the flattened tree.
#[derive(Debug, Clone, PartialEq, Eq)]
pub struct Suggestion {
    pub node: usize,
    pub spec: String,
}

// ---- suggestions -------------------------------------------------------

/// The node's text for a `text:` selector: its text, else its value.
pub open spec fn shown_text(n: NodeText) -> Option<Seq<char>> {
    match n.text {
        Some(t) => Some(t@),
        None => match n.value {
            Some(v) => Some(v@),
            None => None,
        },
    }
}

/// The selectors a matching node offers: by id, by text, by label.
pub open spec fn node_specs(n: NodeText) -> Seq<Seq<char>> {
    (match n.identifier {
        Some(id) => seq!["id: "@ + id@],
        None => seq![],
    }) + (match shown_text(n) {
        Some(t) => seq!["text: \""@ + t + "\""@],
        None => seq![],
    }) + (match n.label {
        Some(l) => seq!["label: \""@ + l@ + "\""@],
        None => seq![],
    })
}

/// The suggestions for a partial selector read as `(field, pattern)`,
/// node by node in pre-order.
pub open spec fn suggestions(es: Seq<A11yEntry>, field: Seq<char>, pattern: Seq<char>) -> Seq<(nat, Seq<char>)>
    decreases es.len(),
{
    if es.len() == 0 {
        seq![]
    } else {
        let i = (es.len() - 1) as nat;
        suggestions(es.drop_last(), field, pattern) + if node_matches(es.last().node, field, pattern) {
            node_specs(es.last().node).map_values(|s: Seq<char>| (i, s))
        } else {
            seq![]
        }
    }
}

pub open spec fn suggestion_views(v: Seq<Suggestion>) -> Seq<(nat, Seq<char>)> {
    v.map_values(|s: Suggestion| (s.node as nat, s.spec@))
}

fn push_suggestion(out: &mut Vec<Suggestion>, node: usize, spec: String)
    ensures
        suggestion_views(final(out)@) == suggestion_views(old(out)@).push((node as nat, spec@)),
{
    out.push(Suggestion { node, spec });
    assert(suggestion_views(final(out)@) =~= suggestion_views(old(out)@).push((node as nat, spec@)));
}

/// Selectors for every node that a partial selector (`id: qa-*`,
/// `label: Close`, or bare text) matches, in tree order.
pub fn suggest_selectors(tree: &[A11yEntry], partial: &str) -> (r: Vec<Suggestion>)
    ensures
        suggestion_views(r@) == suggestions(tree@, partial_parts(partial@).0, partial_parts(partial@).1),
{
    let (field, pattern) = parse_partial(partial);
    let ghost f = partial_parts(partial@).0;
    let ghost p = partial_parts(partial@).1;
    let mut out: Vec<Suggestion> = Vec::new();
    let mut i: usize = 0;
    assert(tree@.take(0) =~= Seq::<A11yEntry>::empty());
    while i < tree.len()
        invariant
            i <= tree@.len(),
            field@ == f,
            pattern@ == p,
            suggestion_views(out@) == suggestions(tree@.take(i as int), f, p),
        decreases tree@.len() - i,
    {
        let ghost before = suggestion_views(out@);
        assert(tree@.take(i + 1).drop_last() =~= tree@.take(i as int));
        assert(tree@.take(i + 1).last() == tree@[i as int]);
        let n = &tree[i].node;
        if matches_partial(n, field, pattern.as_str()) {
            let ghost specs = node_specs(*n);
            match &n.identifier {
                Some(id) => {
                    let mut s = owned("id: ");
                    s.append(id.as_str());
                    push_suggestion(&mut out, i, s);
                },
                None => {},
            }
            let shown = match &n.text {
                Some(t) => Some(t),
                None => n.value.as_ref(),
            };
            match shown {
                Some(t) => {
                    let mut s = owned("text: \"");
                    s.append(t.as_str());
                    s.append("\"");
                    push_suggestion(&mut out, i, s);
                },
                None => {},
            }
            match &n.label {
                Some(l) => {
                    let mut s = owned("label: \"");
                    s.append(l.as_str());
                    s.append("\"");
                    push_suggestion(&mut out, i, s);
                },
                None => {},
            }
            assert(suggestion_views(out@) =~= before + specs.map_values(|s: Seq<char>| (i as nat, s)));
        }
        i = i + 1;
    }
    assert(tree@.take(i as int) =~= tree@);
    out
}

// ---- keys and their order ----------------------------------------------------

/// Strictly before, in the order of `String`: lexicographic by character
/// (which, over UTF-8, is the order of the bytes).
pub open spec fn key_lt(a: Seq<char>, b: Seq<char>) -> bool
    decreases a.len(),
{
    if a.len() == 0 {
        b.len() > 0
    } else if b.len() == 0 {
        false
    } else if a[0] != b[0] {
        (a[0] as int) < (b[0] as int)
    } else {
        key_lt(a.drop_first(), b.drop_first())
    }
}

pub proof fn lemma_key_lt_irreflexive(a: Seq<char>)
    ensures
        !key_lt(a, a),
    decreases a.len(),
{
    if a.len() > 0 {
        lemma_key_lt_irreflexive(a.drop_first());
    }
}

pub proof fn lemma_key_lt_asymmetric(a: Seq<char>, b: Seq<char>)
    ensures
        key_lt(a, b) ==> !key_lt(b, a),
    decreases a.len(),
{
    if a.len() > 0 && b.len() > 0 && a[0] == b[0] {
        lemma_key_lt_asymmetric(a.drop_first(), b.drop_first());
    }
}

pub proof fn lemma_key_lt_total(a: Seq<char>, b: Seq<char>)
    ensures
        a != b ==> key_lt(a, b) || key_lt(b, a),
    decreases a.len(),
{
    if a.len() > 0 && b.len() > 0 && a[0] == b[0] {
        lemma_key_lt_total(a.drop_first(), b.drop_first());
        if a != b {
            assert(a.drop_first() != b.drop_first()) by {
                if a.drop_first() == b.drop_first() {
                    assert(a =~= seq![a[0]] + a.drop_first());
                    assert(b =~= seq![b[0]] + b.drop_first());
                }
            }
        }
    } else if a.len() == 0 && b.len() == 0 {
        assert(a =~= b);
    } else if a.len() > 0 && b.len() > 0 {
        let (x, y) = (a[0], b[0]);
        assert((x as int) != (y as int));
    }
}

pub proof fn lemma_key_lt_transitive(a: Seq<char>, b: Seq<char>, c: Seq<char>)
    requires
        key_lt(a, b),
        key_lt(b, c),
    ensures
        key_lt(a, c),
    decreases a.len(),
{
    if a.len() > 0 && b.len() > 0 && c.len() > 0 && a[0] == b[0] && b[0] == c[0] {
        lemma_key_lt_transitive(a.drop_first(), b.drop_first(), c.drop_first());
    }
}

pub(crate) fn chars_lt(a: &[char], b: &[char]) -> (r: bool)
    ensures
        r == key_lt(a@, b@),
{
    let mut i: usize = 0;
    assert(a@.skip(0) =~= a@);
    assert(b@.skip(0) =~= b@);
    while i < a.len() && i < b.len()
        invariant
            i <= a@.len(),
            i <= b@.len(),
            forall|k: int| 0 <= k < i ==> a@[k] == b@[k],
            key_lt(a@, b@) == key_lt(a@.skip(i as int), b@.skip(i as int)),
        decreases a@.len() - i,
    {
        assert(a@.skip(i as int)[0] == a@[i as int]);
        assert(b@.skip(i as int)[0] == b@[i as int]);
        if a[i] != b[i] {
            return a[i] < b[i];
        }
        assert(a@.skip(i as int).drop_first() =~= a@.skip(i + 1));
        assert(b@.skip(i as int).drop_first() =~= b@.skip(i + 1));
        i = i + 1;
    }
    i == a.len() && i < b.len()
}

// ---- the keyed map, as a sorted list -------------------------------------------

pub type Keyed = Seq<(Seq<char>, Seq<char>)>;

/// Whether `s` has an entry under `k`.
pub open spec fn has_key(s: Keyed, k: Seq<char>) -> bool {
    exists|i: int| 0 <= i < s.len() && #[trigger] s[i].0 == k
}

/// Insert into, or overwrite in, a list kept in key order: a map from
/// keys to contents, listed the way `BTreeMap` iterates.
pub open spec fn sorted_insert(s: Keyed, k: Seq<char>, v: Seq<char>) -> Keyed
    decreases s.len(),
{
    if s.len() == 0 {
        seq![(k, v)]
    } else if s[0].0 == k {
        seq![(k, v)] + s.drop_first()
    } else if key_lt(k, s[0].0) {
        seq![(k, v)] + s
    } else {
        seq![s[0]] + sorted_insert(s.drop_first(), k, v)
    }
}

/// Keys strictly increasing.
pub open spec fn strictly_sorted(s: Keyed) -> bool {
    forall|i: int, j: int| 0 <= i < j < s.len() ==> key_lt(#[trigger] s[i].0, #[trigger] s[j].0)
}

/// The key of a node: `<role>#<id>`, else `<role>@<label>`, else the role.
pub open spec fn node_key(e: A11yEntry) -> Seq<char> {
    match e.node.identifier {
        Some(id) => e.role@ + "#"@ + id@,
        None => match e.node.label {
            Some(l) => e.role@ + "@"@ + l@,
            None => e.role@,
        },
    }
}

/// The content compared across trees: text, else value, else title,
/// else nothing.
pub open spec fn node_content(n: NodeText) -> Seq<char> {
    match n.text {
        Some(t) => t@,
        None => match n.value {
            Some(v) => v@,
            None => match n.title {
                Some(t) => t@,
                None => seq![],
            },
        },
    }
}

/// An integer in decimal, with a `-` when negative.
pub open spec fn signed_decimal(v: int) -> Seq<char> {
    if v < 0 {
        seq!['-'] + decimal((-v) as nat)
    } else {
        decimal(v as nat)
    }
}

/// What tells two nodes with one key apart: their bounds.
pub open spec fn bounds_suffix(b: Bounds) -> Seq<char> {
    "@bounds("@ + signed_decimal(b.x as int) + ","@ + signed_decimal(b.y as int) + ","@
        + signed_decimal(b.w as int) + "x"@ + signed_decimal(b.h as int) + ")"@
}

/// The keyed tree: each node in turn under its key, or, when that key is
/// taken, under the key with its bounds after it.
pub open spec fn keyed(es: Seq<A11yEntry>) -> Keyed
    decreases es.len(),
{
    if es.len() == 0 {
        seq![]
    } else {
        let m = keyed(es.drop_last());
        let e = es.last();
        let k = node_key(e);
        let dk = if has_key(m, k) {
            k + bounds_suffix(e.bounds)
        } else {
            k
        };
        sorted_insert(m, dk, node_content(e.node))
    }
}

proof fn lemma_sorted_insert_skip(s: Keyed, k: Seq<char>, v: Seq<char>, j: nat)
    requires
        j <= s.len(),
        forall|i: int| 0 <= i < j ==> key_lt(#[trigger] s[i].0, k),
    ensures
        sorted_insert(s, k, v) == s.take(j as int) + sorted_insert(s.skip(j as int), k, v),
    decreases j,
{
    if j == 0 {
        assert(s.skip(0) =~= s);
        assert(s.take(0) + sorted_insert(s, k, v) =~= sorted_insert(s, k, v));
    } else {
        lemma_key_lt_irreflexive(k);
        lemma_key_lt_asymmetric(s[0].0, k);
        assert(s[0].0 != k);
        assert(!key_lt(k, s[0].0));
        let d = s.drop_first();
        assert forall|i: int| 0 <= i < j - 1 implies key_lt(#[trigger] d[i].0, k) by {
            assert(d[i] == s[i + 1]);
        }
        lemma_sorted_insert_skip(d, k, v, (j - 1) as nat);
        assert(d.skip(j - 1) =~= s.skip(j as int));
        assert(seq![s[0]] + d.take(j - 1) =~= s.take(j as int));
    }
}

proof fn lemma_sorted_insert_keys(s: Keyed, k: Seq<char>, v: Seq<char>)
    ensures
        forall|x: Seq<char>|
            #![trigger has_key(sorted_insert(s, k, v), x)]
            has_key(sorted_insert(s, k, v), x) <==> (has_key(s, x) || x == k),
        strictly_sorted(s) ==> strictly_sorted(sorted_insert(s, k, v)),
    decreases s.len(),
{
    let r = sorted_insert(s, k, v);
    if s.len() == 0 {
        assert forall|x: Seq<char>| has_key(r, x) <==> (has_key(s, x) || x == k) by {
            if x == k {
                assert(r[0].0 == k);
            }
        }
    } else if s[0].0 == k {
        assert forall|x: Seq<char>| has_key(r, x) <==> (has_key(s, x) || x == k) by {
            if has_key(s, x) {
                let i = choose|i: int| 0 <= i < s.len() && #[trigger] s[i].0 == x;
                if i > 0 {
                    assert(r[i].0 == s[i].0);
                } else {
                    assert(r[0].0 == k);
                }
            }
            if has_key(r, x) {
                let i = choose|i: int| 0 <= i < r.len() && #[trigger] r[i].0 == x;
                if i > 0 {
                    assert(s[i].0 == r[i].0);
                } else {
                    assert(s[0].0 == x);
                }
            }
            if x == k {
                assert(r[0].0 == k);
            }
        }
        if strictly_sorted(s) {
            assert forall|i: int, j: int| 0 <= i < j < r.len() implies key_lt(#[trigger] r[i].0, #[trigger] r[j].0) by {
                assert(r[j].0 == s[j].0);
                if i > 0 {
                    assert(r[i].0 == s[i].0);
                } else {
                    assert(key_lt(s[0].0, s[j].0));
                }
            }
        }
    } else if key_lt(k, s[0].0) {
        assert forall|x: Seq<char>| has_key(r, x) <==> (has_key(s, x) || x == k) by {
            if has_key(s, x) {
                let i = choose|i: int| 0 <= i < s.len() && #[trigger] s[i].0 == x;
                assert(r[i + 1].0 == s[i].0);
            }
            if has_key(r, x) {
                let i = choose|i: int| 0 <= i < r.len() && #[trigger] r[i].0 == x;
                if i > 0 {
                    assert(s[i - 1].0 == r[i].0);
                }
            }
            if x == k {
                assert(r[0].0 == k);
            }
        }
        if strictly_sorted(s) {
            assert forall|i: int, j: int| 0 <= i < j < r.len() implies key_lt(#[trigger] r[i].0, #[trigger] r[j].0) by {
                assert(r[j].0 == s[j - 1].0);
                if i > 0 {
                    assert(r[i].0 == s[i - 1].0);
                } else if j - 1 > 0 {
                    assert(key_lt(s[0].0, s[j - 1].0));
                    lemma_key_lt_transitive(k, s[0].0, s[j - 1].0);
                }
            }
        }
    } else {
        let d = s.drop_first();
        lemma_sorted_insert_keys(d, k, v);
        let rd = sorted_insert(d, k, v);
        assert(r =~= seq![s[0]] + rd);
        assert forall|x: Seq<char>| has_key(r, x) <==> (has_key(s, x) || x == k) by {
            if has_key(s, x) {
                let i = choose|i: int| 0 <= i < s.len() && #[trigger] s[i].0 == x;
                if i > 0 {
                    assert(d[i - 1].0 == x);
                    assert(has_key(d, x));
                    assert(has_key(rd, x));
                    let m = choose|m: int| 0 <= m < rd.len() && #[trigger] rd[m].0 == x;
                    assert(r[m + 1].0 == x);
                } else {
                    assert(r[0].0 == x);
                }
            }
            if has_key(r, x) {
                let i = choose|i: int| 0 <= i < r.len() && #[trigger] r[i].0 == x;
                if i > 0 {
                    assert(rd[i - 1].0 == x);
                    assert(has_key(rd, x));
                    if has_key(d, x) {
                        let m = choose|m: int| 0 <= m < d.len() && #[trigger] d[m].0 == x;
                        assert(s[m + 1].0 == x);
                    }
                } else {
                    assert(s[0].0 == x);
                }
            }
            if x == k {
                assert(has_key(rd, k));
                let m = choose|m: int| 0 <= m < rd.len() && #[trigger] rd[m].0 == k;
                assert(r[m + 1].0 == k);
            }
        }
        if strictly_sorted(s) {
            assert(strictly_sorted(d)) by {
                assert forall|i: int, j: int| 0 <= i < j < d.len() implies key_lt(#[trigger] d[i].0, #[trigger] d[j].0) by {
                    assert(d[i] == s[i + 1] && d[j] == s[j + 1]);
                }
            }
            lemma_key_lt_total(k, s[0].0);
            assert(key_lt(s[0].0, k));
            assert forall|i: int, j: int| 0 <= i < j < r.len() implies key_lt(#[trigger] r[i].0, #[trigger] r[j].0) by {
                if i > 0 {
                    assert(r[i] == rd[i - 1] && r[j] == rd[j - 1]);
                } else {
                    assert(r[j] == rd[j - 1]);
                    assert(has_key(rd, rd[j - 1].0));
                    if rd[j - 1].0 != k {
                        assert(has_key(d, rd[j - 1].0));
                        let m = choose|m: int| 0 <= m < d.len() && #[trigger] d[m].0 == rd[j - 1].0;
                        assert(key_lt(s[0].0, s[m + 1].0));
                    }
                }
            }
        }
    }
}

/// A strictly sorted list has each key once.
pub proof fn lemma_sorted_keys_unique(s: Keyed)
    requires
        strictly_sorted(s),
    ensures
        unique_keys(s),
{
    assert forall|i: int, j: int| 0 <= i < j < s.len() implies #[trigger] s[i].0 != #[trigger] s[j].0 by {
        assert(key_lt(s[i].0, s[j].0));
        if s[i].0 == s[j].0 {
            lemma_key_lt_irreflexive(s[i].0);
        }
    }
}

/// The keyed tree is listed in strictly increasing key order, so each
/// key occurs once: the order and uniqueness of a `BTreeMap`.
pub proof fn lemma_keyed_is_sorted(es: Seq<A11yEntry>)
    ensures
        strictly_sorted(keyed(es)),
        unique_keys(keyed(es)),
    decreases es.len(),
{
    if es.len() > 0 {
        lemma_keyed_is_sorted(es.drop_last());
        let m = keyed(es.drop_last());
        let e = es.last();
        let k = node_key(e);
        let dk = if has_key(m, k) {
            k + bounds_suffix(e.bounds)
        } else {
            k
        };
        lemma_sorted_insert_keys(m, dk, node_content(e.node));
    }
    lemma_sorted_keys_unique(keyed(es));
}

/// Keys occur at most once.
pub open spec fn unique_keys(s: Keyed) -> bool {
    forall|i: int, j: int| 0 <= i < j < s.len() ==> #[trigger] s[i].0 != #[trigger] s[j].0
}


// ---- building the keyed tree ------------------------------------------------

fn push_signed(s: &mut String, v: i32)
    ensures
        final(s)@ == old(s)@ + signed_decimal(v as int),
{
    if v < 0 {
        push_char(s, '-');
        let magnitude: i64 = -(v as i64);
        push_decimal(s, magnitude as usize);
        assert(final(s)@ =~= old(s)@ + (seq!['-'] + decimal((-(v as int)) as nat)));
    } else {
        push_decimal(s, v as usize);
    }
}

fn key_of(e: &A11yEntry) -> (k: String)
    ensures
        k@ == node_key(*e),
{
    let mut k = owned(e.role.as_str());
    match &e.node.identifier {
        Some(id) => {
            k.append("#");
            k.append(id.as_str());
        },
        None => match &e.node.label {
            Some(l) => {
                k.append("@");
                k.append(l.as_str());
            },
            None => {},
        },
    }
    k
}

fn content_of(n: &NodeText) -> (c: String)
    ensures
        c@ == node_content(*n),
{
    match &n.text {
        Some(t) => owned(t.as_str()),
        None => match &n.value {
            Some(v) => owned(v.as_str()),
            None => match &n.title {
                Some(t) => owned(t.as_str()),
                None => String::new(),
            },
        },
    }
}

fn push_bounds(k: &mut String, b: Bounds)
    ensures
        final(k)@ == old(k)@ + bounds_suffix(b),
{
    k.append("@bounds(");
    push_signed(k, b.x);
    k.append(",");
    push_signed(k, b.y);
    k.append(",");
    push_signed(k, b.w);
    k.append("x");
    push_signed(k, b.h);
    k.append(")");
}

fn holds_key(m: &Vec<(String, String)>, k: &String) -> (r: bool)
    ensures
        r == has_key(entries(m@), k@),
{
    let mut i: usize = 0;
    while i < m.len()
        invariant
            i <= m@.len(),
            forall|j: int| 0 <= j < i ==> #[trigger] entries(m@)[j].0 != k@,
        decreases m@.len() - i,
    {
        assert(entries(m@)[i as int].0 == m@[i as int].0@);
        if m[i].0 == *k {
            return true;
        }
        i = i + 1;
    }
    false
}

fn insert_sorted(m: &mut Vec<(String, String)>, k: String, v: String)
    ensures
        entries(final(m)@) == sorted_insert(entries(old(m)@), k@, v@),
{
    let ghost s = entries(m@);
    let kc = chars_of(k.as_str());
    let mut j: usize = 0;
    while j < m.len() && chars_lt(chars_of(m[j].0.as_str()).as_slice(), kc.as_slice())
        invariant
            j <= m@.len(),
            s == entries(m@),
            kc@ == k@,
            forall|i: int| 0 <= i < j ==> key_lt(#[trigger] s[i].0, k@),
        decreases m@.len() - j,
    {
        assert(s[j as int].0 == m@[j as int].0@);
        j = j + 1;
    }
    proof {
        lemma_sorted_insert_skip(s, k@, v@, j as nat);
    }
    let ghost rest = s.skip(j as int);
    if j < m.len() && m[j].0 == k {
        assert(rest[0].0 == k@);
        assert(sorted_insert(rest, k@, v@) =~= seq![(k@, v@)] + rest.drop_first());
        m.remove(j);
        m.insert(j, (k, v));
        assert(entries(m@) =~= s.take(j as int) + (seq![(k@, v@)] + rest.drop_first()));
    } else {
        if j < m.len() {
            assert(rest[0].0 == m@[j as int].0@);
            assert(!key_lt(rest[0].0, k@));
            proof {
                lemma_key_lt_total(k@, rest[0].0);
            }
            assert(key_lt(k@, rest[0].0));
            assert(sorted_insert(rest, k@, v@) =~= seq![(k@, v@)] + rest);
        } else {
            assert(rest.len() == 0);
            assert(sorted_insert(rest, k@, v@) =~= seq![(k@, v@)]);
        }
        let ghost kv = (k@, v@);
        m.insert(j, (k, v));
        assert(entries(m@) =~= s.take(j as int) + (seq![kv] + rest));
    }
}

/// Key a flattened tree: every node under `<role>#<id>`, `<role>@<label>`
/// or `<role>`, a key met again taking the node's bounds after it, with
/// the node's text (or value, or title) as content; listed in key order.
pub fn collect_keyed(tree: &[A11yEntry]) -> (r: Vec<(String, String)>)
    ensures
        entries(r@) == keyed(tree@),
{
    let mut m: Vec<(String, String)> = Vec::new();
    let mut i: usize = 0;
    assert(tree@.take(0) =~= Seq::<A11yEntry>::empty());
    assert(entries(m@) =~= Seq::<(Seq<char>, Seq<char>)>::empty());
    while i < tree.len()
        invariant
            i <= tree@.len(),
            entries(m@) == keyed(tree@.take(i as int)),
        decreases tree@.len() - i,
    {
        assert(tree@.take(i + 1).drop_last() =~= tree@.take(i as int));
        assert(tree@.take(i + 1).last() == tree@[i as int]);
        let e = &tree[i];
        let mut k = key_of(e);
        if holds_key(&m, &k) {
            push_bounds(&mut k, e.bounds);
        }
        let c = content_of(&e.node);
        insert_sorted(&mut m, k, c);
        i = i + 1;
    }
    assert(tree@.take(i as int) =~= tree@);
    m
}

/// The semantic diff of two trees: keys only the baseline has, keys
/// only the current tree has, and keys whose content drifted, each in
/// key order.
pub fn diff_a11y_trees(baseline: &[A11yEntry], current: &[A11yEntry]) -> (d: TreeDiff)
    ensures
        strs(d.missing@) == keys_absent(keyed(baseline@), keyed(current@)),
        strs(d.extra@) == keys_absent(keyed(current@), keyed(baseline@)),
        drift_views(d.drifted@) == drifts(keyed(baseline@), keyed(current@)),
{
    let b = collect_keyed(baseline);
    let c = collect_keyed(current);
    diff_keyed(b.as_slice(), c.as_slice())
}

proof fn lemma_lookup_unique(s: Keyed, i: int)
    requires
        unique_keys(s),
        0 <= i < s.len(),
    ensures
        lookup(s, s[i].0) == Some(s[i].1),
    decreases i,
{
    if i > 0 {
        assert(s[0].0 != s[i].0);
        let d = s.drop_first();
        assert(unique_keys(d)) by {
            assert forall|a: int, b: int| 0 <= a < b < d.len() implies #[trigger] d[a].0 != #[trigger] d[b].0 by {
                assert(d[a] == s[a + 1] && d[b] == s[b + 1]);
            }
        }
        lemma_lookup_unique(d, i - 1);
        assert(d[i - 1] == s[i]);
    }
}

proof fn lemma_found_everywhere(a: Keyed, b: Keyed)
    requires
        forall|i: int| 0 <= i < a.len() ==> lookup(b, #[trigger] a[i].0) == Some(a[i].1),
    ensures
        keys_absent(a, b).len() == 0,
        drifts(a, b).len() == 0,
    decreases a.len(),
{
    if a.len() > 0 {
        let d = a.drop_last();
        assert forall|i: int| 0 <= i < d.len() implies lookup(b, #[trigger] d[i].0) == Some(d[i].1) by {
            assert(d[i] == a[i]);
        }
        lemma_found_everywhere(d, b);
        assert(lookup(b, a[a.len() - 1].0) == Some(a[a.len() - 1].1));
        assert(a.last() == a[a.len() - 1]);
    }
}

/// A tree compared with itself has no difference: nothing missing,
/// nothing extra, nothing drifted.
pub proof fn lemma_a_tree_does_not_differ_from_itself(tree: Seq<A11yEntry>)
    ensures
        keys_absent(keyed(tree), keyed(tree)).len() == 0,
        drifts(keyed(tree), keyed(tree)).len() == 0,
{
    let s = keyed(tree);
    lemma_keyed_is_sorted(tree);
    assert forall|i: int| 0 <= i < s.len() implies lookup(s, #[trigger] s[i].0) == Some(s[i].1) by {
        lemma_lookup_unique(s, i);
    }
    lemma_found_everywhere(s, s);
}


proof fn lemma_nothing_absent(a: Keyed, b: Keyed)
    ensures
        keys_absent(a, b).len() == 0 <==> forall|i: int| 0 <= i < a.len() ==> lookup(b, #[trigger] a[i].0) is Some,
    decreases a.len(),
{
    if a.len() > 0 {
        let d = a.drop_last();
        lemma_nothing_absent(d, b);
        assert(forall|i: int| 0 <= i < d.len() ==> #[trigger] d[i] == a[i]);
        assert(a.last() == a[a.len() - 1]);
        if keys_absent(a, b).len() == 0 {
            assert forall|i: int| 0 <= i < a.len() implies lookup(b, #[trigger] a[i].0) is Some by {
                if i < d.len() {
                    assert(d[i] == a[i]);
                }
            }
        }
        if forall|i: int| 0 <= i < a.len() ==> lookup(b, #[trigger] a[i].0) is Some {
            assert forall|i: int| 0 <= i < d.len() implies lookup(b, #[trigger] d[i].0) is Some by {
                assert(d[i] == a[i]);
            }
        }
    }
}

proof fn lemma_nothing_absent_or_drifted(a: Keyed, b: Keyed)
    ensures
        (keys_absent(a, b).len() == 0 && drifts(a, b).len() == 0) <==> forall|i: int|
            0 <= i < a.len() ==> lookup(b, #[trigger] a[i].0) == Some(a[i].1),
    decreases a.len(),
{
    if a.len() > 0 {
        let d = a.drop_last();
        lemma_nothing_absent_or_drifted(d, b);
        assert(a.last() == a[a.len() - 1]);
        if keys_absent(a, b).len() == 0 && drifts(a, b).len() == 0 {
            assert forall|i: int| 0 <= i < a.len() implies lookup(b, #[trigger] a[i].0) == Some(a[i].1) by {
                if i < d.len() {
                    assert(d[i] == a[i]);
                }
            }
        }
        if forall|i: int| 0 <= i < a.len() ==> lookup(b, #[trigger] a[i].0) == Some(a[i].1) {
            assert forall|i: int| 0 <= i < d.len() implies lookup(b, #[trigger] d[i].0) == Some(d[i].1) by {
                assert(d[i] == a[i]);
            }
            assert(lookup(b, a[a.len() - 1].0) == Some(a[a.len() - 1].1));
        }
    }
}

/// A diff of two trees is clean exactly when they agree: every key of
/// the baseline is in the current tree with the same content, and every
/// key of the current tree is in the baseline. So a node the current
/// tree lacks, one it adds, or one whose text drifted makes it unclean.
pub proof fn lemma_a_diff_is_clean_exactly_when_the_trees_agree(baseline: Seq<A11yEntry>, current: Seq<A11yEntry>)
    ensures
        ({
            let kb = keyed(baseline);
            let kc = keyed(current);
            (keys_absent(kb, kc).len() == 0 && keys_absent(kc, kb).len() == 0 && drifts(kb, kc).len() == 0) <==> (
            (forall|i: int| 0 <= i < kb.len() ==> lookup(kc, #[trigger] kb[i].0) == Some(kb[i].1)) && (forall|j: int|
                0 <= j < kc.len() ==> lookup(kb, #[trigger] kc[j].0) is Some))
        }),
{
    lemma_nothing_absent_or_drifted(keyed(baseline), keyed(current));
    lemma_nothing_absent(keyed(current), keyed(baseline));
}

} // verus!
