//! What `smix diagnostic` and the crash-report attribution around a flow
//! run look at.

use vstd::prelude::*;
use crate::listing::{after_last_dot, pad, push_padded, short_runtime};
use crate::runner::push_u64;
use crate::text::{
    chars_of, contains_chars, contains_seq, debug_quoted, debug_str, decimal, join, join_strings, lowercase, owned,
    push_char, push_decimal, strs, to_lowercase,
};

verus! {

broadcast use vstd::string::group_string_axioms;

/// Whether `s` ends with `suffix`.
pub open spec fn ends_with(s: Seq<char>, suffix: Seq<char>) -> bool {
    s.len() >= suffix.len() && s.skip(s.len() - suffix.len()) == suffix
}

fn chars_end_with(s: &[char], suffix: &[char]) -> (r: bool)
    ensures
        r == ends_with(s@, suffix@),
{
    if s.len() < suffix.len() {
        return false;
    }
    let off = s.len() - suffix.len();
    let mut i: usize = off;
    while i < s.len()
        invariant
            off == s@.len() - suffix@.len(),
            off <= i <= s@.len(),
            forall|m: int| 0 <= m < i - off ==> s@[off + m] == suffix@[m],
        decreases s@.len() - i,
    {
        if s[i] != suffix[i - off] {
            assert(s@.skip(off as int)[i - off] != suffix@[i - off]);
            return false;
        }
        i = i + 1;
    }
    assert(s@.skip(off as int) =~= suffix@);
    true
}

/// Whether a file in the diagnostic-reports directory is a crash report
/// worth attributing to a run: its lowercased name ends in `.ips` and,
/// when the run targets a bundle, contains that bundle id's last
/// component, lowercased. With no bundle every crash report counts: the
/// before/after window around the run does the filtering.
pub open spec fn crash_report_matches_spec(bundle_id: Option<Seq<char>>, file_name: Seq<char>) -> bool {
    let name = lowercase(file_name);
    ends_with(name, seq!['.', 'i', 'p', 's']) && match bundle_id {
        Some(b) => contains_seq(name, lowercase(after_last_dot(b))),
        None => true,
    }
}

pub fn crash_report_matches(bundle_id: Option<&str>, file_name: &str) -> (r: bool)
    ensures
        r == crash_report_matches_spec(
            match bundle_id {
                Some(b) => Some(b@),
                None => None,
            },
            file_name@,
        ),
{
    let name = chars_of(to_lowercase(file_name).as_str());
    let ips = ['.', 'i', 'p', 's'];
    assert(ips@ =~= seq!['.', 'i', 'p', 's']);
    if !chars_end_with(name.as_slice(), ips.as_slice()) {
        return false;
    }
    match bundle_id {
        None => true,
        Some(b) => {
            let leaf = short_runtime(b);
            let leaf_lower = chars_of(to_lowercase(leaf.as_str()).as_str());
            contains_chars(name.as_slice(), leaf_lower.as_slice())
        },
    }
}


// ---- the runtime snapshot, as text ----------------------------------------

/// `{:>w}`: spaces up to `w` characters, then the text.
pub open spec fn pad_left(s: Seq<char>, w: nat) -> Seq<char> {
    if s.len() >= w {
        s
    } else {
        Seq::new((w - s.len()) as nat, |i: int| ' ') + s
    }
}

fn push_padded_left(out: &mut String, s: &str, w: usize)
    ensures
        final(out)@ == old(out)@ + pad_left(s@, w as nat),
{
    let n = s.unicode_len();
    let ghost base = old(out)@;
    let mut k: usize = n;
    while k < w
        invariant
            n == s@.len(),
            n <= k <= w || (k == n && n >= w),
            out@ == base + Seq::new((k - n) as nat, |i: int| ' '),
        decreases w - k,
    {
        push_char(out, ' ');
        assert(base + Seq::new((k + 1 - n) as nat, |i: int| ' ') =~= (base + Seq::new((k - n) as nat, |i: int| ' ')).push(
            ' ',
        ));
        k = k + 1;
    }
    let ghost spaces = Seq::new((k - n) as nat, |i: int| ' ');
    out.append(s);
    assert(out@ =~= old(out)@ + pad_left(s@, w as nat)) by {
        if n >= w {
            assert(spaces =~= Seq::<char>::empty());
        }
    }
}

/// An `i32` as `{}` writes it.
pub open spec fn int_text(c: int) -> Seq<char> {
    if c < 0 {
        "-"@ + decimal((-c) as nat)
    } else {
        decimal(c as nat)
    }
}

fn i32_string(c: i32) -> (s: String)
    ensures
        s@ == int_text(c as int),
{
    let wide: i64 = c as i64;
    if wide < 0 {
        let mut s = owned("-");
        let mag: u64 = (0 - wide) as u64;
        push_u64(&mut s, mag);
        s
    } else {
        let mut s = String::new();
        push_u64(&mut s, wide as u64);
        s
    }
}

/// One subprocess a runner (or this CLI) ran, as the snapshot keeps it.
#[derive(Debug, Clone, PartialEq, Eq)]
pub struct SubprocessRecord {
    pub argv: Vec<String>,
    /// `None` when it ended without one (a signal).
    pub exit_code: Option<i32>,
    pub wall_ms: u64,
    /// The start of its stderr; empty when it wrote none.
    pub stderr_head: String,
}

/// How many of a list the snapshot shows: the newest twenty.
pub open spec fn shown(len: nat) -> nat {
    if len < 20 {
        len
    } else {
        20
    }
}

/// The newest `k` entries, newest first.
pub open spec fn newest_first<A>(rs: Seq<A>, k: nat) -> Seq<A> {
    Seq::new(k, |i: int| rs[rs.len() - 1 - i])
}

/// One subprocess line: wall time and exit right-aligned, then the
/// command (after `program`, the word the runner side leaves out), then
/// the stderr head quoted when there is one.
pub open spec fn subprocess_row(r: SubprocessRecord, program: Seq<char>) -> Seq<char> {
    "  "@ + pad_left(decimal(r.wall_ms as nat), 13) + "ms  code="@ + pad_left(
        match r.exit_code {
            Some(c) => int_text(c as int),
            None => "-"@,
        },
        3,
    ) + "  "@ + program + join(strs(r.argv@), " "@) + if r.stderr_head@.len() == 0 {
        seq![]
    } else {
        " err="@ + debug_quoted(r.stderr_head@)
    }
}

/// A subprocess section: its heading with how many are shown of how
/// many, then the newest twenty, newest first.
pub open spec fn subprocess_section_spec(title: Seq<char>, rs: Seq<SubprocessRecord>, program: Seq<char>) -> Seq<Seq<char>> {
    seq!["=== "@ + title + " (last "@ + decimal(shown(rs.len())) + " of "@ + decimal(rs.len()) + ") ==="@]
        + newest_first(rs, shown(rs.len())).map_values(|r: SubprocessRecord| subprocess_row(r, program))
}

fn subprocess_line(r: &SubprocessRecord, program: &str) -> (s: String)
    ensures
        s@ == subprocess_row(*r, program@),
{
    let mut s = owned("  ");
    let wall = {
        let mut w = String::new();
        push_u64(&mut w, r.wall_ms);
        w
    };
    push_padded_left(&mut s, wall.as_str(), 13);
    s.append("ms  code=");
    let code = match r.exit_code {
        Some(c) => i32_string(c),
        None => owned("-"),
    };
    push_padded_left(&mut s, code.as_str(), 3);
    s.append("  ");
    s.append(program);
    let argv = join_strings(r.argv.as_slice(), " ");
    s.append(argv.as_str());
    if r.stderr_head.unicode_len() > 0 {
        s.append(" err=");
        let q = debug_str(r.stderr_head.as_str());
        s.append(q.as_str());
    }
    proof {
        assert(s@ =~= subprocess_row(*r, program@));
    }
    s
}

/// The lines of a subprocess section of `smix diagnostic dump`: the
/// runner's own (`program` empty) or this CLI's `simctl` calls
/// (`program` is `simctl `).
pub fn subprocess_section(title: &str, records: &[SubprocessRecord], program: &str) -> (r: Vec<String>)
    ensures
        strs(r@) == subprocess_section_spec(title@, records@, program@),
{
    let n = records.len();
    let k: usize = if n < 20 {
        n
    } else {
        20
    };
    let mut head = owned("=== ");
    head.append(title);
    head.append(" (last ");
    push_decimal(&mut head, k);
    head.append(" of ");
    push_decimal(&mut head, n);
    head.append(") ===");
    let mut r: Vec<String> = Vec::new();
    r.push(head);
    let ghost h = strs(r@);
    let ghost want = newest_first(records@, shown(records@.len())).map_values(
        |x: SubprocessRecord| subprocess_row(x, program@),
    );
    let mut i: usize = 0;
    while i < k
        invariant
            n == records@.len(),
            k as nat == shown(n as nat),
            i <= k,
            want == newest_first(records@, shown(records@.len())).map_values(
                |x: SubprocessRecord| subprocess_row(x, program@),
            ),
            strs(r@) == h + want.take(i as int),
        decreases k - i,
    {
        let line = subprocess_line(&records[n - 1 - i], program);
        let ghost before = strs(r@);
        r.push(line);
        assert(strs(r@) =~= before.push(line@));
        assert(want.take(i + 1) =~= want.take(i as int).push(want[i as int]));
        i = i + 1;
    }
    assert(want.take(i as int) =~= want);
    r
}

/// One attempt of a flow, as the retry attribution keeps it.
#[derive(Debug, Clone, PartialEq, Eq)]
pub struct FlowAttempt {
    pub attempt_index: u32,
    pub status: String,
    pub wall_ms: u64,
    pub error_class: Option<String>,
    /// The crash report that appeared during the attempt, if one did.
    pub ips_generated: Option<String>,
}

/// A flow and its attempts.
#[derive(Debug, Clone, PartialEq, Eq)]
pub struct FlowRecord {
    pub flow_name: String,
    pub attempts: Vec<FlowAttempt>,
}

pub open spec fn attempt_line(a: FlowAttempt) -> Seq<char> {
    "    attempt #"@ + decimal(a.attempt_index as nat) + " status="@ + a.status@ + " wallMs="@ + decimal(
        a.wall_ms as nat,
    ) + (match a.error_class {
        Some(c) => " errorClass="@ + c@,
        None => seq![],
    }) + match a.ips_generated {
        Some(p) => " ipsGenerated="@ + p@,
        None => seq![],
    }
}

pub open spec fn flow_lines(f: FlowRecord) -> Seq<Seq<char>> {
    seq!["  flow: "@ + f.flow_name@] + f.attempts@.map_values(|a: FlowAttempt| attempt_line(a))
}

pub open spec fn flows_lines(fs: Seq<FlowRecord>) -> Seq<Seq<char>>
    decreases fs.len(),
{
    if fs.len() == 0 {
        seq![]
    } else {
        flows_lines(fs.drop_last()) + flow_lines(fs.last())
    }
}

/// The retry roll-up: nothing when no flow ran; else a heading, each
/// flow and its attempts, and a blank line.
pub open spec fn flows_section_spec(fs: Seq<FlowRecord>) -> Seq<Seq<char>> {
    if fs.len() == 0 {
        seq![]
    } else {
        seq!["=== recent flows (retry attribution) ==="@] + flows_lines(fs) + seq![seq![]]
    }
}

fn attempt_text(a: &FlowAttempt) -> (s: String)
    ensures
        s@ == attempt_line(*a),
{
    let mut s = owned("    attempt #");
    push_decimal(&mut s, a.attempt_index as usize);
    s.append(" status=");
    s.append(a.status.as_str());
    s.append(" wallMs=");
    push_u64(&mut s, a.wall_ms);
    match &a.error_class {
        Some(c) => {
            s.append(" errorClass=");
            s.append(c.as_str());
        },
        None => {},
    }
    match &a.ips_generated {
        Some(p) => {
            s.append(" ipsGenerated=");
            s.append(p.as_str());
        },
        None => {},
    }
    proof {
        assert(s@ =~= attempt_line(*a));
    }
    s
}

pub fn flows_section(flows: &[FlowRecord]) -> (r: Vec<String>)
    ensures
        strs(r@) == flows_section_spec(flows@),
{
    let mut r: Vec<String> = Vec::new();
    if flows.len() == 0 {
        assert(strs(r@) =~= Seq::<Seq<char>>::empty());
        return r;
    }
    r.push(owned("=== recent flows (retry attribution) ==="));
    let ghost h = strs(r@);
    let mut i: usize = 0;
    assert(flows@.take(0) =~= Seq::<FlowRecord>::empty());
    while i < flows.len()
        invariant
            i <= flows@.len(),
            strs(r@) == h + flows_lines(flows@.take(i as int)),
        decreases flows@.len() - i,
    {
        let f = &flows[i];
        let mut name = owned("  flow: ");
        name.append(f.flow_name.as_str());
        let ghost before = strs(r@);
        r.push(name);
        let ghost base = strs(r@);
        assert(base =~= before.push(name@));
        let ghost al = f.attempts@.map_values(|a: FlowAttempt| attempt_line(a));
        let mut j: usize = 0;
        while j < f.attempts.len()
            invariant
                j <= f.attempts@.len(),
                al == f.attempts@.map_values(|a: FlowAttempt| attempt_line(a)),
                strs(r@) == base + al.take(j as int),
            decreases f.attempts@.len() - j,
        {
            let line = attempt_text(&f.attempts[j]);
            let ghost b2 = strs(r@);
            r.push(line);
            assert(strs(r@) =~= b2.push(line@));
            assert(al.take(j + 1) =~= al.take(j as int).push(al[j as int]));
            j = j + 1;
        }
        proof {
            assert(al.take(j as int) =~= al);
            assert(flows@.take(i + 1).drop_last() =~= flows@.take(i as int));
            assert(flows@.take(i + 1).last() == flows@[i as int]);
            assert(strs(r@) =~= h + flows_lines(flows@.take(i + 1)));
        }
        i = i + 1;
    }
    let ghost before = strs(r@);
    r.push(String::new());
    assert(strs(r@) =~= before.push(seq![]));
    assert(flows@.take(i as int) =~= flows@);
    r
}

/// The metro log section: nothing when no tail was read; else a heading
/// with how many lines, each indented, and a blank line.
pub open spec fn metro_section_spec(tail: Seq<Seq<char>>) -> Seq<Seq<char>> {
    if tail.len() == 0 {
        seq![]
    } else {
        seq!["=== metro log tail (last "@ + decimal(tail.len()) + " of file) ==="@] + tail.map_values(
            |l: Seq<char>| "  "@ + l,
        ) + seq![seq![]]
    }
}

pub fn metro_section(tail: &[String]) -> (r: Vec<String>)
    ensures
        strs(r@) == metro_section_spec(strs(tail@)),
{
    let mut r: Vec<String> = Vec::new();
    if tail.len() == 0 {
        assert(strs(r@) =~= Seq::<Seq<char>>::empty());
        return r;
    }
    let mut head = owned("=== metro log tail (last ");
    push_decimal(&mut head, tail.len());
    head.append(" of file) ===");
    r.push(head);
    let ghost h = strs(r@);
    let ghost t = strs(tail@);
    let mut i: usize = 0;
    while i < tail.len()
        invariant
            i <= tail@.len(),
            t == strs(tail@),
            strs(r@) == h + t.take(i as int).map_values(|l: Seq<char>| "  "@ + l),
        decreases tail@.len() - i,
    {
        let mut l = owned("  ");
        l.append(tail[i].as_str());
        let ghost before = strs(r@);
        r.push(l);
        assert(strs(r@) =~= before.push(l@));
        assert(t.take(i + 1).map_values(|l: Seq<char>| "  "@ + l) =~= t.take(i as int).map_values(
            |l: Seq<char>| "  "@ + l,
        ).push("  "@ + t[i as int]));
        i = i + 1;
    }
    assert(t.take(i as int) =~= t);
    let ghost before = strs(r@);
    r.push(String::new());
    assert(strs(r@) =~= before.push(seq![]));
    r
}

/// The sample of named ids the last launch saw, or that there is none.
pub fn named_ids_line(ids: &[String]) -> (s: String)
    ensures
        ids@.len() > 0 ==> s@ == "  lastInteractiveNamedIds ("@ + decimal(ids@.len()) + "): "@ + join(strs(ids@), ", "@),
        ids@.len() == 0 ==> s@ == "  lastInteractiveNamedIds: []  # no launch has completed with a non-empty sample yet"@,
{
    if ids.len() == 0 {
        return owned("  lastInteractiveNamedIds: []  # no launch has completed with a non-empty sample yet");
    }
    let mut s = owned("  lastInteractiveNamedIds (");
    push_decimal(&mut s, ids.len());
    s.append("): ");
    let joined = join_strings(ids, ", ");
    s.append(joined.as_str());
    s
}

/// One open session of the runner.
#[derive(Debug, Clone, PartialEq, Eq)]
pub struct SessionRow {
    pub session_id: String,
    pub bundle_id: String,
    pub opened_at_ms: u64,
    pub last_activated_at_ms: u64,
}

pub open spec fn session_line(s: SessionRow) -> Seq<char> {
    "  "@ + pad(s.session_id@, 38) + " "@ + pad(s.bundle_id@, 40) + " openedAtMs="@ + decimal(s.opened_at_ms as nat)
        + " lastActivatedAtMs="@ + decimal(s.last_activated_at_ms as nat)
}

/// The open sessions: a heading with their count, one line each.
pub open spec fn sessions_section_spec(ss: Seq<SessionRow>) -> Seq<Seq<char>> {
    seq!["=== open sessions ("@ + decimal(ss.len()) + ") ==="@] + ss.map_values(|s: SessionRow| session_line(s))
}

pub fn sessions_section(sessions: &[SessionRow]) -> (r: Vec<String>)
    ensures
        strs(r@) == sessions_section_spec(sessions@),
{
    let mut head = owned("=== open sessions (");
    push_decimal(&mut head, sessions.len());
    head.append(") ===");
    let mut r: Vec<String> = Vec::new();
    r.push(head);
    let ghost h = strs(r@);
    let ghost want = sessions@.map_values(|s: SessionRow| session_line(s));
    let mut i: usize = 0;
    while i < sessions.len()
        invariant
            i <= sessions@.len(),
            want == sessions@.map_values(|s: SessionRow| session_line(s)),
            strs(r@) == h + want.take(i as int),
        decreases sessions@.len() - i,
    {
        let s = &sessions[i];
        let mut l = owned("  ");
        push_padded(&mut l, s.session_id.as_str(), 38);
        l.append(" ");
        push_padded(&mut l, s.bundle_id.as_str(), 40);
        l.append(" openedAtMs=");
        push_u64(&mut l, s.opened_at_ms);
        l.append(" lastActivatedAtMs=");
        push_u64(&mut l, s.last_activated_at_ms);
        let ghost before = strs(r@);
        r.push(l);
        assert(strs(r@) =~= before.push(l@));
        assert(want.take(i + 1) =~= want.take(i as int).push(want[i as int]));
        i = i + 1;
    }
    assert(want.take(i as int) =~= want);
    r
}


/// The head of the snapshot: how long the runner has been up, what it
/// says of the simulator's health, and its supervisor, if any.
pub fn snapshot_header(uptime_ms: u64, sim_health: &str, supervisor_pid: Option<u32>) -> (r: Vec<String>)
    ensures
        strs(r@) == seq![
            "=== runner runtime snapshot ==="@,
            "uptime:         "@ + decimal(uptime_ms as nat) + "ms"@,
            "sim health:     "@ + sim_health@,
            match supervisor_pid {
                Some(p) => "supervisor pid: "@ + decimal(p as nat),
                None => "supervisor pid: (none)"@,
            },
        ],
{
    let mut up = owned("uptime:         ");
    push_u64(&mut up, uptime_ms);
    up.append("ms");
    let mut health = owned("sim health:     ");
    health.append(sim_health);
    let sup = match supervisor_pid {
        Some(p) => {
            let mut l = owned("supervisor pid: ");
            push_decimal(&mut l, p as usize);
            l
        },
        None => owned("supervisor pid: (none)"),
    };
    let mut r: Vec<String> = Vec::new();
    r.push(owned("=== runner runtime snapshot ==="));
    r.push(up);
    r.push(health);
    r.push(sup);
    assert(strs(r@) =~= seq![r@[0]@, r@[1]@, r@[2]@, r@[3]@]);
    r
}

} // verus!
