//! `smix migrate`: what is said about a rewrite. The rewriting is the
//! migrator's; these put its report into the lines the command prints.

use vstd::prelude::*;
use crate::text::{decimal, join, join_strings, owned, push_decimal, strs};

verus! {

broadcast use vstd::string::group_string_axioms;

/// Renames grouped by the verb they rename, in order of first
/// appearance: `(from, to, how many)`, the `to` of the first.
pub open spec fn rename_counts(rs: Seq<(Seq<char>, Seq<char>)>) -> Seq<(Seq<char>, Seq<char>, nat)>
    decreases rs.len(),
{
    if rs.len() == 0 {
        seq![]
    } else {
        let c = rename_counts(rs.drop_last());
        let (from, to) = rs.last();
        match index_of_from(c, from) {
            Some(i) => c.update(i as int, (c[i as int].0, c[i as int].1, c[i as int].2 + 1)),
            None => c.push((from, to, 1)),
        }
    }
}

/// Where `from` is counted, if it is.
pub open spec fn index_of_from(c: Seq<(Seq<char>, Seq<char>, nat)>, from: Seq<char>) -> Option<nat>
    decreases c.len(),
{
    if c.len() == 0 {
        None
    } else if c[0].0 == from {
        Some(0)
    } else {
        match index_of_from(c.drop_first(), from) {
            Some(i) => Some(i + 1),
            None => None,
        }
    }
}

proof fn lemma_index_of_from(c: Seq<(Seq<char>, Seq<char>, nat)>, from: Seq<char>)
    ensures
        match index_of_from(c, from) {
            Some(i) => i < c.len() && c[i as int].0 == from && forall|k: int| 0 <= k < i ==> #[trigger] c[k].0 != from,
            None => forall|k: int| 0 <= k < c.len() ==> #[trigger] c[k].0 != from,
        },
    decreases c.len(),
{
    if c.len() > 0 && c[0].0 != from {
        lemma_index_of_from(c.drop_first(), from);
        assert forall|k: int| 0 < k < c.len() implies #[trigger] c[k] == c.drop_first()[k - 1] by {}
    }
}

proof fn lemma_index_of_from_at(c: Seq<(Seq<char>, Seq<char>, nat)>, from: Seq<char>, i: nat)
    requires
        i < c.len(),
        c[i as int].0 == from,
        forall|k: int| 0 <= k < i ==> #[trigger] c[k].0 != from,
    ensures
        index_of_from(c, from) == Some(i),
    decreases i,
{
    if i > 0 {
        assert(c[0].0 != from);
        assert forall|k: int| 0 <= k < i - 1 implies #[trigger] c.drop_first()[k].0 != from by {
            assert(c.drop_first()[k] == c[k + 1]);
        }
        lemma_index_of_from_at(c.drop_first(), from, (i - 1) as nat);
    }
}

proof fn lemma_index_of_from_none(c: Seq<(Seq<char>, Seq<char>, nat)>, from: Seq<char>)
    requires
        forall|k: int| 0 <= k < c.len() ==> #[trigger] c[k].0 != from,
    ensures
        index_of_from(c, from) is None,
    decreases c.len(),
{
    if c.len() > 0 {
        assert(c[0].0 != from);
        assert forall|k: int| 0 <= k < c.len() - 1 implies #[trigger] c.drop_first()[k].0 != from by {
            assert(c.drop_first()[k] == c[k + 1]);
        }
        lemma_index_of_from_none(c.drop_first(), from);
    }
}

/// One group of renames: `from → to`, with `×n` when there were several.
pub open spec fn count_phrase(g: (Seq<char>, Seq<char>, nat)) -> Seq<char> {
    if g.2 == 1 {
        g.0 + " → "@ + g.1
    } else {
        g.0 + " → "@ + g.1 + " ×"@ + decimal(g.2)
    }
}

/// The line printed for one rewritten file.
pub open spec fn change_line(rs: Seq<(Seq<char>, Seq<char>)>, steps: nat) -> Seq<char> {
    if rs.len() == 0 {
        "no changes, "@ + decimal(steps) + " step(s)"@
    } else {
        decimal(rs.len()) + " rename(s) in "@ + decimal(steps) + " step(s): "@ + join(
            rename_counts(rs).map_values(|g: (Seq<char>, Seq<char>, nat)| count_phrase(g)),
            ", "@,
        )
    }
}

pub open spec fn pair_strs(v: Seq<(String, String)>) -> Seq<(Seq<char>, Seq<char>)> {
    v.map_values(|p: (String, String)| (p.0@, p.1@))
}

pub open spec fn count_strs(v: Seq<(String, String, usize)>) -> Seq<(Seq<char>, Seq<char>, nat)> {
    v.map_values(|g: (String, String, usize)| (g.0@, g.1@, g.2 as nat))
}

fn count_renames(renamed: &[(String, String)]) -> (c: Vec<(String, String, usize)>)
    ensures
        count_strs(c@) == rename_counts(pair_strs(renamed@)),
        c@.len() <= renamed@.len(),
{
    let mut c: Vec<(String, String, usize)> = Vec::new();
    let mut i: usize = 0;
    assert(pair_strs(renamed@.take(0)) =~= Seq::<(Seq<char>, Seq<char>)>::empty());
    while i < renamed.len()
        invariant
            i <= renamed@.len(),
            c@.len() <= i,
            count_strs(c@) == rename_counts(pair_strs(renamed@.take(i as int))),
            forall|k: int| 0 <= k < c@.len() ==> #[trigger] c@[k].2 <= i,
        decreases renamed@.len() - i,
    {
        let ghost prev = pair_strs(renamed@.take(i as int));
        assert(pair_strs(renamed@.take(i + 1)).drop_last() =~= prev);
        assert(pair_strs(renamed@.take(i + 1)).last() == (renamed@[i as int].0@, renamed@[i as int].1@));
        let ghost cs = count_strs(c@);
        proof {
            lemma_index_of_from(cs, renamed@[i as int].0@);
        }
        let mut j: usize = 0;
        while j < c.len() && c[j].0 != renamed[i].0
            invariant
                j <= c@.len(),
                i < renamed@.len(),
                cs == count_strs(c@),
                forall|k: int| 0 <= k < j ==> #[trigger] cs[k].0 != renamed@[i as int].0@,
            decreases c@.len() - j,
        {
            assert(cs[j as int].0 == c@[j as int].0@);
            j = j + 1;
        }
        if j < c.len() {
            proof {
                lemma_index_of_from_at(cs, renamed@[i as int].0@, j as nat);
            }
            let n = c[j].2 + 1;
            let g = (c[j].0.clone(), c[j].1.clone(), n);
            assert(g.0@ == c@[j as int].0@ && g.1@ == c@[j as int].1@);
            c.set(j, g);
            assert(count_strs(c@) =~= cs.update(j as int, (cs[j as int].0, cs[j as int].1, cs[j as int].2 + 1)));
        } else {
            proof {
                lemma_index_of_from_none(cs, renamed@[i as int].0@);
            }
            let g = (renamed[i].0.clone(), renamed[i].1.clone(), 1usize);
            assert(g.0@ == renamed@[i as int].0@ && g.1@ == renamed@[i as int].1@);
            c.push(g);
            assert(count_strs(c@) =~= cs.push((renamed@[i as int].0@, renamed@[i as int].1@, 1)));
        }
        i = i + 1;
    }
    assert(renamed@.take(i as int) =~= renamed@);
    c
}

fn phrase(g: &(String, String, usize)) -> (s: String)
    ensures
        s@ == count_phrase((g.0@, g.1@, g.2 as nat)),
{
    let mut s = owned(g.0.as_str());
    s.append(" → ");
    s.append(g.1.as_str());
    if g.2 != 1 {
        s.append(" ×");
        push_decimal(&mut s, g.2);
    }
    s
}

/// One file's changes, for the line printed as it is rewritten: the
/// renames grouped by verb, or that there were none.
pub fn describe_changes(renamed: &[(String, String)], step_count: usize) -> (s: String)
    ensures
        s@ == change_line(pair_strs(renamed@), step_count as nat),
{
    if renamed.len() == 0 {
        let mut s = owned("no changes, ");
        push_decimal(&mut s, step_count);
        s.append(" step(s)");
        return s;
    }
    let counts = count_renames(renamed);
    let ghost cs = count_strs(counts@);
    let mut parts: Vec<String> = Vec::new();
    let mut i: usize = 0;
    while i < counts.len()
        invariant
            i <= counts@.len(),
            cs == count_strs(counts@),
            strs(parts@) == cs.take(i as int).map_values(|g: (Seq<char>, Seq<char>, nat)| count_phrase(g)),
        decreases counts@.len() - i,
    {
        let ghost before = strs(parts@);
        parts.push(phrase(&counts[i]));
        assert(strs(parts@) =~= before.push(count_phrase(cs[i as int])));
        assert(cs.take(i + 1).map_values(|g: (Seq<char>, Seq<char>, nat)| count_phrase(g)) =~= cs.take(
            i as int,
        ).map_values(|g: (Seq<char>, Seq<char>, nat)| count_phrase(g)).push(count_phrase(cs[i as int])));
        i = i + 1;
    }
    assert(cs.take(i as int) =~= cs);
    let mut s = String::new();
    push_decimal(&mut s, renamed.len());
    s.append(" rename(s) in ");
    push_decimal(&mut s, step_count);
    s.append(" step(s): ");
    s.append(join_strings(parts.as_slice(), ", ").as_str());
    assert(pair_strs(renamed@).len() == renamed@.len());
    s
}

/// What a whole run says at the end: the count when several files were
/// asked for, then what the caller has to act on.
pub open spec fn summary_lines(files: nat, renames: nat, unknown: nat, subflows: nat, asked_for: nat) -> Seq<Seq<char>> {
    (if asked_for > 1 {
        seq![
            "smix migrate: "@ + decimal(files) + " of "@ + decimal(asked_for) + " file(s) rewritten, "@
                + decimal(renames) + " rename(s)"@,
        ]
    } else {
        seq![]
    }) + (if unknown > 0 {
        seq![
            "smix migrate: "@ + decimal(unknown)
                + " verb(s) had no smix equivalent and were left as they were — the flow will not parse until you replace them"@,
        ]
    } else {
        seq![]
    }) + (if subflows > 0 {
        seq![
            "smix migrate: "@ + decimal(subflows)
                + " runFlow reference(s) point at files this run did not open — migrate those too"@,
        ]
    } else {
        seq![]
    })
}

/// The closing lines of `smix migrate`.
pub fn summary(files: usize, renames: usize, unknown: usize, subflows: usize, asked_for: usize) -> (r: Vec<String>)
    ensures
        strs(r@) == summary_lines(files as nat, renames as nat, unknown as nat, subflows as nat, asked_for as nat),
{
    let mut r: Vec<String> = Vec::new();
    if asked_for > 1 {
        let mut s = owned("smix migrate: ");
        push_decimal(&mut s, files);
        s.append(" of ");
        push_decimal(&mut s, asked_for);
        s.append(" file(s) rewritten, ");
        push_decimal(&mut s, renames);
        s.append(" rename(s)");
        r.push(s);
    }
    if unknown > 0 {
        let mut s = owned("smix migrate: ");
        push_decimal(&mut s, unknown);
        s.append(
            " verb(s) had no smix equivalent and were left as they were — the flow will not parse until you replace them",
        );
        r.push(s);
    }
    if subflows > 0 {
        let mut s = owned("smix migrate: ");
        push_decimal(&mut s, subflows);
        s.append(" runFlow reference(s) point at files this run did not open — migrate those too");
        r.push(s);
    }
    assert(strs(r@) =~= summary_lines(files as nat, renames as nat, unknown as nat, subflows as nat, asked_for as nat));
    r
}

/// The warning for verbs the migrator kept as they were.
pub open spec fn unknown_verbs_line(unknown: Seq<Seq<char>>, src: Seq<char>) -> Option<Seq<char>> {
    if unknown.len() == 0 {
        None
    } else {
        Some("smix migrate: WARN "@ + src + ": unknown verb(s) preserved verbatim: "@ + join(unknown, ", "@))
    }
}

/// Warn about verbs preserved verbatim, if there were any.
pub fn unknown_verbs_warning(unknown: &[String], src: &str) -> (r: Option<String>)
    ensures
        match r {
            Some(s) => unknown_verbs_line(strs(unknown@), src@) == Some(s@),
            None => unknown_verbs_line(strs(unknown@), src@) is None,
        },
{
    if unknown.len() == 0 {
        return None;
    }
    let mut s = owned("smix migrate: WARN ");
    s.append(src);
    s.append(": unknown verb(s) preserved verbatim: ");
    s.append(join_strings(unknown, ", ").as_str());
    Some(s)
}

/// The warning for selector keys that will not parse.
pub open spec fn unknown_keys_line(keys: Seq<Seq<char>>, src: Seq<char>) -> Option<Seq<char>> {
    if keys.len() == 0 {
        None
    } else {
        Some(
            "smix migrate: WARN "@ + src + ": selector key(s) v2 does not accept: "@ + join(keys, ", "@)
                + " — flows using them fail to parse; remove them or use a supported selector"@,
        )
    }
}

/// Warn about selector keys that flows cannot use, if there were any.
pub fn unknown_selector_keys_warning(keys: &[String], src: &str) -> (r: Option<String>)
    ensures
        match r {
            Some(s) => unknown_keys_line(strs(keys@), src@) == Some(s@),
            None => unknown_keys_line(strs(keys@), src@) is None,
        },
{
    if keys.len() == 0 {
        return None;
    }
    let mut s = owned("smix migrate: WARN ");
    s.append(src);
    s.append(": selector key(s) v2 does not accept: ");
    s.append(join_strings(keys, ", ").as_str());
    s.append(" — flows using them fail to parse; remove them or use a supported selector");
    Some(s)
}

} // verus!
