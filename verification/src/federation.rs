//! Federation scheduling: sharding flows across devices on remote nodes,
//! the `ssh` / `rsync` argv that reaches them, and merging what comes
//! back. Spawning the processes is the caller's; this is the logic.
//!
//! A device ref in the roster is an alias/UDID for the *remote* node's
//! registry; it is forwarded verbatim and never resolved here.

use vstd::prelude::*;
use crate::json::{json_string_member, read_json_string_member};
use crate::parallel::{aggregate_exit, child_argv, is_bucket, lemma_aggregate_is_the_worst, lemma_bucket_is_determined, max_code, shard_flows, passthrough_tokens, run_passthrough, RunFlags};
use crate::text::{chars_of, is_blank, join, join_strings, lines, lines_of, owned, push_char, string_of, strs, trim, views};

verus! {

broadcast use vstd::string::group_string_axioms;

/// One remote node in the roster: how to reach it, where its smix repo
/// lives, and which of its registered devices the federation may use.
#[derive(Debug, Clone, PartialEq, Eq)]
pub struct NodeSpec {
    pub name: String,
    pub host: String,
    pub repo: String,
    pub devices: Vec<String>,
}

/// Why a roster was refused.
#[derive(Debug, Clone, PartialEq, Eq)]
pub enum NodesError {
    /// The yaml did not have the roster's shape.
    Malformed { message: String },
    /// The roster lists no nodes.
    Empty,
    /// A node lists no devices.
    EmptyDevices { node: String },
    /// Two nodes share a name.
    DuplicateName { name: String },
}

/// Whether node `i` is the first to break the roster's rules: it lists
/// no devices, or its name was already used by an earlier node.
pub open spec fn node_is_bad(nodes: Seq<NodeSpec>, i: int) -> bool {
    nodes[i].devices@.len() == 0 || exists|j: int| 0 <= j < i && nodes[j].name@ == nodes[i].name@
}

/// The error a roster earns at its first bad node `i`.
pub open spec fn roster_error_at(nodes: Seq<NodeSpec>, i: int) -> NodesError {
    if nodes[i].devices@.len() == 0 {
        NodesError::EmptyDevices { node: nodes[i].name }
    } else {
        NodesError::DuplicateName { name: nodes[i].name }
    }
}

/// Check a roster read from `.smix/nodes.yaml`: non-empty, every node
/// with at least one device, node names unique. The first node that
/// breaks a rule is the one reported; a valid roster comes back as it was.
pub fn validate_nodes(nodes: Vec<NodeSpec>) -> (r: Result<Vec<NodeSpec>, NodesError>)
    ensures
        nodes@.len() == 0 ==> r == Err::<Vec<NodeSpec>, NodesError>(NodesError::Empty),
        nodes@.len() > 0 ==> match r {
            Ok(v) => v@ == nodes@ && forall|i: int| 0 <= i < nodes@.len() ==> !node_is_bad(nodes@, i),
            Err(e) => exists|i: int|
                0 <= i < nodes@.len() && node_is_bad(nodes@, i) && (forall|k: int|
                    0 <= k < i ==> !node_is_bad(nodes@, k)) && e == roster_error_at(nodes@, i),
        },
{
    if nodes.len() == 0 {
        return Err(NodesError::Empty);
    }
    let mut i: usize = 0;
    while i < nodes.len()
        invariant
            i <= nodes@.len(),
            forall|k: int| 0 <= k < i ==> !node_is_bad(nodes@, k),
        decreases nodes@.len() - i,
    {
        if nodes[i].devices.len() == 0 {
            assert(node_is_bad(nodes@, i as int));
            return Err(NodesError::EmptyDevices { node: nodes[i].name.clone() });
        }
        let mut j: usize = 0;
        while j < i
            invariant
                j <= i,
                i < nodes@.len(),
                forall|m: int| 0 <= m < j ==> nodes@[m].name@ != nodes@[i as int].name@,
                nodes@[i as int].devices@.len() != 0,
                forall|k: int| 0 <= k < i ==> !node_is_bad(nodes@, k),
            decreases i - j,
        {
            if nodes[j].name == nodes[i].name {
                assert(nodes@[j as int].name@ == nodes@[i as int].name@);
                assert(node_is_bad(nodes@, i as int));
                return Err(NodesError::DuplicateName { name: nodes[i].name.clone() });
            }
            j = j + 1;
        }
        i = i + 1;
    }
    Ok(nodes)
}

/// Device slots in listing order: node 0's devices first, then node 1's.
pub open spec fn slots_of(nodes: Seq<NodeSpec>) -> Seq<(usize, Seq<char>)>
    decreases nodes.len(),
{
    if nodes.len() == 0 {
        seq![]
    } else {
        slots_of(nodes.drop_last()) + nodes.last().devices@.map_values(
            |d: String| ((nodes.len() - 1) as usize, d@),
        )
    }
}

/// The slots with each device ref taken by its characters.
pub open spec fn slot_views(v: Seq<(usize, String)>) -> Seq<(usize, Seq<char>)> {
    v.map_values(|s: (usize, String)| (s.0, s.1@))
}

/// Flatten the roster into device slots, `(node index, device ref)`,
/// in listing order.
pub fn expand_slots(nodes: &[NodeSpec]) -> (slots: Vec<(usize, String)>)
    ensures
        slot_views(slots@) == slots_of(nodes@),
{
    let mut slots: Vec<(usize, String)> = Vec::new();
    let mut i: usize = 0;
    while i < nodes.len()
        invariant
            i <= nodes@.len(),
            slot_views(slots@) == slots_of(nodes@.take(i as int)),
        decreases nodes@.len() - i,
    {
        let ghost before = slot_views(slots@);
        let devices = &nodes[i].devices;
        let mut k: usize = 0;
        while k < devices.len()
            invariant
                k <= devices@.len(),
                devices == nodes@[i as int].devices,
                i < nodes@.len(),
                slot_views(slots@) == before + devices@.take(k as int).map_values(
                    |d: String| (i, d@),
                ),
            decreases devices@.len() - k,
        {
            let ghost b2 = slot_views(slots@);
            slots.push((i, devices[k].clone()));
            assert(slot_views(slots@) =~= b2.push((i, devices@[k as int]@)));
            assert(devices@.take(k + 1).map_values(|d: String| (i, d@)) =~= devices@.take(
                k as int,
            ).map_values(|d: String| (i, d@)).push((i, devices@[k as int]@)));
            k = k + 1;
        }
        proof {
            let t = nodes@.take(i + 1);
            assert(t.drop_last() =~= nodes@.take(i as int));
            assert(t.last() == nodes@[i as int]);
            assert(devices@.take(k as int) =~= devices@);
            assert(((t.len() - 1) as usize) == i);
        }
        i = i + 1;
    }
    assert(nodes@.take(i as int) =~= nodes@);
    slots
}

/// One slot's share of the batch: which node, which device ref on that
/// node, and the flow indices it runs.
#[derive(Debug, Clone, PartialEq, Eq)]
pub struct SlotAssignment {
    pub node: usize,
    pub device_ref: String,
    pub flows: Vec<usize>,
}

/// Assign flows round-robin over all slots across all nodes: slot `i`
/// gets exactly the bucket `shard_flows` gives sim `i`.
pub fn assign_flows(flow_count: usize, slots: &[(usize, String)]) -> (r: Vec<SlotAssignment>)
    ensures
        r@.len() == slots@.len(),
        forall|i: int|
            0 <= i < r@.len() ==> {
                &&& (#[trigger] r@[i]).node == slots@[i].0
                &&& r@[i].device_ref@ == slots@[i].1@
                &&& is_bucket(r@[i].flows@, flow_count as nat, slots@.len(), i as nat)
            },
{
    let buckets = shard_flows(flow_count, slots.len());
    let mut r: Vec<SlotAssignment> = Vec::new();
    let mut i: usize = 0;
    while i < slots.len()
        invariant
            i <= slots@.len(),
            slots@.len() > 0 ==> buckets@.len() == slots@.len(),
            forall|b: int|
                0 <= b < buckets@.len() ==> is_bucket(
                    #[trigger] buckets@[b]@,
                    flow_count as nat,
                    slots@.len(),
                    b as nat,
                ),
            r@.len() == i,
            forall|j: int|
                0 <= j < i ==> {
                    &&& (#[trigger] r@[j]).node == slots@[j].0
                    &&& r@[j].device_ref@ == slots@[j].1@
                    &&& is_bucket(r@[j].flows@, flow_count as nat, slots@.len(), j as nat)
                },
        decreases slots@.len() - i,
    {
        r.push(
            SlotAssignment {
                node: slots[i].0,
                device_ref: slots[i].1.clone(),
                flows: buckets[i].clone(),
            },
        );
        proof {
            assert(r@[i as int].flows@ =~= buckets@[i as int]@);
        }
        i = i + 1;
    }
    r
}

/// The flow buckets of `assign_flows` are those of `shard_flows` over
/// the same number of slots: one round-robin, kept in one place.
pub proof fn lemma_assignment_is_the_shard(
    assigned: Seq<SlotAssignment>,
    buckets: Seq<Vec<usize>>,
    flow_count: nat,
    slot_count: nat,
)
    requires
        slot_count > 0,
        assigned.len() == slot_count,
        buckets.len() == slot_count,
        forall|i: int|
            0 <= i < slot_count ==> is_bucket(
                (#[trigger] assigned[i]).flows@,
                flow_count,
                slot_count,
                i as nat,
            ),
        forall|i: int|
            0 <= i < slot_count ==> is_bucket(#[trigger] buckets[i]@, flow_count, slot_count, i as nat),
    ensures
        forall|i: int| 0 <= i < slot_count ==> (#[trigger] assigned[i]).flows@ == buckets[i]@,
{
    assert forall|i: int| 0 <= i < slot_count implies (#[trigger] assigned[i]).flows@ == buckets[i]@ by {
        lemma_bucket_is_determined(assigned[i].flows@, buckets[i]@, flow_count, slot_count, i as nat);
    }
}

/// ssh's own exit code for a transport failure. Disjoint from smix's
/// exit space and above all of it, so the worst-of-nodes aggregate lets
/// transport loss win.
pub const SSH_TRANSPORT_EXIT: u8 = 255;

/// Whether an exit code is ssh's transport-failure sentinel.
pub fn is_transport_failure(code: u8) -> (r: bool)
    ensures
        r == (code == SSH_TRANSPORT_EXIT),
{
    code == SSH_TRANSPORT_EXIT
}

/// The body of a POSIX single-quoted word: each `'` becomes `'\''`.
pub open spec fn quote_body(s: Seq<char>) -> Seq<char>
    decreases s.len(),
{
    if s.len() == 0 {
        seq![]
    } else {
        quote_body(s.drop_last()) + if s.last() == '\'' {
            seq!['\'', '\\', '\'', '\'']
        } else {
            seq![s.last()]
        }
    }
}

/// POSIX single-quote escaping; always quotes.
pub open spec fn quoted(s: Seq<char>) -> Seq<char> {
    seq!['\''] + quote_body(s) + seq!['\'']
}

/// POSIX single-quote escaping. Always quotes, bare-safe input too, so
/// the remote command has one deterministic shape.
pub fn shell_quote(s: &str) -> (q: String)
    ensures
        q@ == quoted(s@),
{
    let cs = chars_of(s);
    let mut q = String::new();
    push_char(&mut q, '\'');
    let mut i: usize = 0;
    while i < cs.len()
        invariant
            i <= cs@.len(),
            cs@ == s@,
            q@ == seq!['\''] + quote_body(cs@.take(i as int)),
        decreases cs@.len() - i,
    {
        let c = cs[i];
        if c == '\'' {
            push_char(&mut q, '\'');
            push_char(&mut q, '\\');
            push_char(&mut q, '\'');
            push_char(&mut q, '\'');
        } else {
            push_char(&mut q, c);
        }
        proof {
            let t = cs@.take(i + 1);
            assert(t.drop_last() =~= cs@.take(i as int));
            assert(t.last() == c);
        }
        assert(q@ =~= seq!['\''] + quote_body(cs@.take(i + 1)));
        i = i + 1;
    }
    assert(cs@.take(i as int) =~= cs@);
    push_char(&mut q, '\'');
    q
}

/// Each string quoted.
pub open spec fn all_quoted(v: Seq<Seq<char>>) -> Seq<Seq<char>> {
    v.map_values(|s: Seq<char>| quoted(s))
}

fn quote_all(v: &[String]) -> (r: Vec<String>)
    ensures
        strs(r@) == all_quoted(strs(v@)),
{
    let mut r: Vec<String> = Vec::new();
    let mut i: usize = 0;
    while i < v.len()
        invariant
            i <= v@.len(),
            strs(r@) == all_quoted(strs(v@.take(i as int))),
        decreases v@.len() - i,
    {
        let ghost before = strs(r@);
        r.push(shell_quote(v[i].as_str()));
        assert(strs(r@) =~= before.push(quoted(v@[i as int]@)));
        assert(all_quoted(strs(v@.take(i + 1))) =~= all_quoted(strs(v@.take(i as int))).push(
            quoted(v@[i as int]@),
        ));
        i = i + 1;
    }
    assert(v@.take(i as int) =~= v@);
    r
}

/// The remote command `remote_argv` sends: a `cd` into the node's repo,
/// then the shard's `smix run` with the flows and device ref quoted and
/// `--format json` appended.
pub open spec fn remote_command(
    repo: Seq<char>,
    flows: Seq<Seq<char>>,
    device_ref: Seq<char>,
    passthrough: Seq<Seq<char>>,
) -> Seq<char> {
    "cd "@ + quoted(repo) + " && target/release/smix "@ + join(
        seq!["run"@] + all_quoted(flows) + seq!["--device"@, quoted(device_ref)] + passthrough,
        " "@,
    ) + " --format json"@
}

/// The argv for `ssh` (the `ssh` word itself excluded): batch mode, the
/// node's host, and one remote command string.
pub fn remote_argv(node: &NodeSpec, flows: &[String], device_ref: &str, passthrough: &[String]) -> (argv: Vec<String>)
    ensures
        strs(argv@) == seq![
            "-o"@,
            "BatchMode=yes"@,
            node.host@,
            remote_command(node.repo@, strs(flows@), device_ref@, strs(passthrough@)),
        ],
{
    let quoted_flows = quote_all(flows);
    let quoted_ref = shell_quote(device_ref);
    let smix_argv = child_argv(quoted_flows.as_slice(), quoted_ref.as_str(), passthrough);
    let mut remote = owned("cd ");
    remote.append(shell_quote(node.repo.as_str()).as_str());
    remote.append(" && target/release/smix ");
    remote.append(join_strings(smix_argv.as_slice(), " ").as_str());
    remote.append(" --format json");
    let mut argv: Vec<String> = Vec::new();
    argv.push(owned("-o"));
    argv.push(owned("BatchMode=yes"));
    argv.push(node.host.clone());
    argv.push(remote);
    proof {
        assert(strs(argv@) =~= seq![
            "-o"@,
            "BatchMode=yes"@,
            node.host@,
            remote_command(node.repo@, strs(flows@), device_ref@, strs(passthrough@)),
        ]);
    }
    argv
}

/// The freshness stamp a successful remote `cargo build` lays down.
pub const FED_BUILD_STAMP: &'static str = "target/.smix-fed-stamp";

/// The readiness gate's remote command: a missing stamp fails `test -f`
/// first, so "never rebuilt" reads as stale.
pub open spec fn readiness_command(repo: Seq<char>) -> Seq<char> {
    "cd "@ + quoted(repo) + " && test -f target/.smix-fed-stamp && test -x target/release/smix && [ -z \"$(find crates -name '*.rs' -newer target/.smix-fed-stamp)\" ]"@
}

/// The argv for the read-only readiness probe (no `ssh` word).
pub fn readiness_argv(node: &NodeSpec) -> (argv: Vec<String>)
    ensures
        strs(argv@) == seq!["-o"@, "BatchMode=yes"@, node.host@, readiness_command(node.repo@)],
{
    let mut remote = owned("cd ");
    remote.append(shell_quote(node.repo.as_str()).as_str());
    remote.append(
        " && test -f target/.smix-fed-stamp && test -x target/release/smix && [ -z \"$(find crates -name '*.rs' -newer target/.smix-fed-stamp)\" ]",
    );
    let mut argv: Vec<String> = Vec::new();
    argv.push(owned("-o"));
    argv.push(owned("BatchMode=yes"));
    argv.push(node.host.clone());
    argv.push(remote);
    proof {
        assert(strs(argv@) =~= seq![
            "-o"@,
            "BatchMode=yes"@,
            node.host@,
            readiness_command(node.repo@),
        ]);
    }
    argv
}

/// Where a federation run's `--debug-output` artifacts land on a node,
/// relative to its repo.
pub const FED_ARTIFACT_DIR: &'static str = ".smix/fed-c4-artifacts";

/// The argv for the artifact-recovery `rsync` (no `rsync` word): archive
/// pull of the node's remote artifact dir into a per-node local subdir.
pub fn artifact_pull_argv(node: &NodeSpec, remote_dir: &str, local_dir: &str) -> (argv: Vec<String>)
    ensures
        strs(argv@) == seq![
            "-a"@,
            node.host@ + ":"@ + quoted(node.repo@ + "/"@ + remote_dir@ + "/"@),
            local_dir@ + "/"@ + node.name@ + "/"@,
        ],
{
    let mut path = node.repo.clone();
    path.append("/");
    path.append(remote_dir);
    path.append("/");
    let mut from = node.host.clone();
    from.append(":");
    from.append(shell_quote(path.as_str()).as_str());
    let mut to = owned(local_dir);
    to.append("/");
    to.append(node.name.as_str());
    to.append("/");
    let mut argv: Vec<String> = Vec::new();
    argv.push(owned("-a"));
    argv.push(from);
    argv.push(to);
    proof {
        assert(strs(argv@) =~= seq![
            "-a"@,
            node.host@ + ":"@ + quoted(node.repo@ + "/"@ + remote_dir@ + "/"@),
            local_dir@ + "/"@ + node.name@ + "/"@,
        ]);
    }
    argv
}

/// A remote command's full result: exit code plus both streams.
#[derive(Debug, Clone, PartialEq, Eq)]
pub struct RemoteOutput {
    pub exit: u8,
    pub stdout: String,
    pub stderr: String,
}


/// One flow's report line from a remote `--format json` stdout: the
/// `flow` and `runOutcome` members, and the whole line as it came.
#[derive(Debug, Clone, PartialEq, Eq)]
pub struct FlowReport {
    pub flow: String,
    pub outcome: String,
    pub raw: String,
}

/// Why a remote stdout was refused.
#[derive(Debug, Clone, PartialEq, Eq)]
pub enum ReportError {
    /// A non-blank line that is not JSON: a protocol violation.
    NotJson { line: String },
    /// A JSON line without a string member the report needs.
    MissingField { field: &'static str, line: String },
}

/// A report error by its characters: the missing field (empty for a
/// non-JSON line) and the offending line.
pub open spec fn report_error_view(e: ReportError) -> (Seq<char>, Seq<char>) {
    match e {
        ReportError::NotJson { line } => (seq![], line@),
        ReportError::MissingField { field, line } => (field@, line@),
    }
}

/// What one line contributes, given what serde_json found under its
/// `flow` and `runOutcome` members: nothing (blank), a report
/// `(flow, outcome, line)`, or an error `(missing field, line)`, where
/// the empty field stands for "not JSON".
pub open spec fn report_from(
    l: Seq<char>,
    flow: Option<Option<Seq<char>>>,
    outcome: Option<Option<Seq<char>>>,
) -> Result<Option<(Seq<char>, Seq<char>, Seq<char>)>, (Seq<char>, Seq<char>)> {
    if trim(l).len() == 0 {
        Ok(None)
    } else {
        match flow {
            None => Err((seq![], l)),
            Some(None) => Err(("flow"@, l)),
            Some(Some(f)) => match outcome {
                None => Err((seq![], l)),
                Some(None) => Err(("runOutcome"@, l)),
                Some(Some(o)) => Ok(Some((f, o, l))),
            },
        }
    }
}

/// What one line contributes.
pub open spec fn report_of_line(l: Seq<char>) -> Result<Option<(Seq<char>, Seq<char>, Seq<char>)>, (Seq<char>, Seq<char>)> {
    report_from(l, json_string_member(l, "flow"@), json_string_member(l, "runOutcome"@))
}

/// A member lookup by its characters.
pub open spec fn member_view(m: Option<Option<String>>) -> Option<Option<Seq<char>>> {
    match m {
        None => None,
        Some(None) => Some(None),
        Some(Some(v)) => Some(Some(v@)),
    }
}

/// One line's report from what its `flow` and `runOutcome` lookups gave
/// back (`None` when the line is not JSON, `Some(None)` when the member
/// is not a string): blank lines give nothing; otherwise the first
/// failing lookup is the error.
pub fn report_of_members(line: &str, flow: Option<Option<String>>, outcome: Option<Option<String>>) -> (r: Result<Option<FlowReport>, ReportError>)
    ensures
        match r {
            Ok(None) => report_from(line@, member_view(flow), member_view(outcome)) == Ok::<
                Option<(Seq<char>, Seq<char>, Seq<char>)>,
                (Seq<char>, Seq<char>),
            >(None),
            Ok(Some(rep)) => report_from(line@, member_view(flow), member_view(outcome)) == Ok::<_, (Seq<char>, Seq<char>)>(
                Some((rep.flow@, rep.outcome@, rep.raw@)),
            ),
            Err(e) => report_from(line@, member_view(flow), member_view(outcome)) == Err::<
                Option<(Seq<char>, Seq<char>, Seq<char>)>,
                _,
            >(report_error_view(e)),
        },
{
    let cs = chars_of(line);
    if is_blank(cs.as_slice()) {
        return Ok(None);
    }
    proof {
        reveal_strlit("flow");
        reveal_strlit("runOutcome");
    }
    let f = match flow {
        None => {
            return Err(ReportError::NotJson { line: owned(line) });
        },
        Some(None) => {
            return Err(ReportError::MissingField { field: "flow", line: owned(line) });
        },
        Some(Some(v)) => v,
    };
    let o = match outcome {
        None => {
            return Err(ReportError::NotJson { line: owned(line) });
        },
        Some(None) => {
            return Err(ReportError::MissingField { field: "runOutcome", line: owned(line) });
        },
        Some(Some(v)) => v,
    };
    Ok(Some(FlowReport { flow: f, outcome: o, raw: owned(line) }))
}

/// The reports of a sequence of lines, or the first line's error.
pub open spec fn reports_of_lines(ls: Seq<Seq<char>>) -> Result<Seq<(Seq<char>, Seq<char>, Seq<char>)>, (Seq<char>, Seq<char>)>
    decreases ls.len(),
{
    if ls.len() == 0 {
        Ok(seq![])
    } else {
        match report_of_line(ls[0]) {
            Err(e) => Err(e),
            Ok(one) => match reports_of_lines(ls.drop_first()) {
                Err(e) => Err(e),
                Ok(rest) => Ok(
                    match one {
                        Some(r) => seq![r] + rest,
                        None => rest,
                    },
                ),
            },
        }
    }
}

/// A line a report can be read from: blank, or JSON carrying string
/// `flow` and `runOutcome` members.
pub open spec fn line_reportable(l: Seq<char>) -> bool {
    trim(l).len() == 0 || (json_string_member(l, "flow"@) matches Some(Some(_)) && json_string_member(
        l,
        "runOutcome"@,
    ) matches Some(Some(_)))
}

/// The lines that are reports rather than blank.
pub open spec fn is_report_line() -> spec_fn(Seq<char>) -> bool {
    |l: Seq<char>| trim(l).len() > 0
}

pub open spec fn member_text(m: Option<Option<Seq<char>>>) -> Seq<char> {
    match m {
        Some(Some(v)) => v,
        _ => seq![],
    }
}

/// A report line as `(flow, outcome, line)`.
pub open spec fn report_triple() -> spec_fn(Seq<char>) -> (Seq<char>, Seq<char>, Seq<char>) {
    |l: Seq<char>| (member_text(json_string_member(l, "flow"@)), member_text(json_string_member(l, "runOutcome"@)), l)
}

/// Reading a remote stdout's lines succeeds exactly when every line is
/// blank or a JSON report with string `flow` and `runOutcome`; it then
/// gives one report per non-blank line, in order, with the line kept
/// verbatim. Otherwise it is refused for the first line that is not.
pub proof fn lemma_every_line_is_a_report_or_the_first_refusal(ls: Seq<Seq<char>>)
    ensures
        reports_of_lines(ls) is Ok <==> forall|i: int| 0 <= i < ls.len() ==> line_reportable(#[trigger] ls[i]),
        reports_of_lines(ls) matches Ok(v) ==> v == ls.filter(is_report_line()).map_values(report_triple()),
        reports_of_lines(ls) matches Err(e) ==> exists|k: int|
            0 <= k < ls.len() && !line_reportable(#[trigger] ls[k]) && (forall|j: int|
                0 <= j < k ==> line_reportable(#[trigger] ls[j])) && report_of_line(ls[k]) == Err::<
                Option<(Seq<char>, Seq<char>, Seq<char>)>,
                _,
            >(e),
    decreases ls.len(),
{
    reveal_with_fuel(Seq::filter, 2);
    if ls.len() == 0 {
        assert(ls.filter(is_report_line()).map_values(report_triple()) =~= Seq::<(Seq<char>, Seq<char>, Seq<char>)>::empty());
    } else {
        let x = ls[0];
        let rest = ls.drop_first();
        lemma_every_line_is_a_report_or_the_first_refusal(rest);
        assert(ls =~= seq![x] + rest);
        Seq::filter_distributes_over_add(seq![x], rest, is_report_line());
        assert(seq![x].drop_last() =~= Seq::<Seq<char>>::empty());
        let fx = seq![x].filter(is_report_line());
        assert(line_reportable(x) <==> report_of_line(x) is Ok);
        assert forall|i: int| 0 <= i < rest.len() implies rest[i] == ls[i + 1] by {}
        if reports_of_lines(ls) is Ok {
            assert forall|i: int| 0 <= i < ls.len() implies line_reportable(#[trigger] ls[i]) by {
                if i > 0 {
                    assert(ls[i] == rest[i - 1]);
                }
            }
            let v = reports_of_lines(ls)->Ok_0;
            let w = reports_of_lines(rest)->Ok_0;
            assert((fx + rest.filter(is_report_line())).map_values(report_triple()) =~= fx.map_values(report_triple())
                + rest.filter(is_report_line()).map_values(report_triple()));
            if trim(x).len() == 0 {
                assert(fx =~= Seq::<Seq<char>>::empty());
                assert(v =~= w);
            } else {
                assert(fx =~= seq![x]);
                assert(v =~= seq![report_triple()(x)] + w);
            }
        } else {
            if report_of_line(x) is Err {
                assert(!line_reportable(ls[0]));
            } else {
                let k = choose|k: int|
                    0 <= k < rest.len() && !line_reportable(#[trigger] rest[k]) && (forall|j: int|
                        0 <= j < k ==> line_reportable(#[trigger] rest[j])) && report_of_line(rest[k]) == Err::<
                        Option<(Seq<char>, Seq<char>, Seq<char>)>,
                        _,
                    >(reports_of_lines(ls)->Err_0);
                assert(ls[k + 1] == rest[k]);
                assert forall|j: int| 0 <= j < k + 1 implies line_reportable(#[trigger] ls[j]) by {
                    if j > 0 {
                        assert(ls[j] == rest[j - 1]);
                    }
                }
                assert(!line_reportable(ls[k + 1]));
            }
        }
    }
}

/// The reports by their characters.
pub open spec fn report_views(v: Seq<FlowReport>) -> Seq<(Seq<char>, Seq<char>, Seq<char>)> {
    v.map_values(|r: FlowReport| (r.flow@, r.outcome@, r.raw@))
}

proof fn lemma_reports_split(ls: Seq<Seq<char>>, i: int)
    requires
        0 <= i < ls.len(),
    ensures
        reports_of_lines(ls.skip(i)) == match report_of_line(ls[i]) {
            Err(e) => Err(e),
            Ok(one) => match reports_of_lines(ls.skip(i + 1)) {
                Err(e) => Err(e),
                Ok(rest) => Ok(
                    match one {
                        Some(r) => seq![r] + rest,
                        None => rest,
                    },
                ),
            },
        },
{
    assert(ls.skip(i).drop_first() =~= ls.skip(i + 1));
    assert(ls.skip(i)[0] == ls[i]);
}

/// `done` are the reports of the lines before `i`, and whatever the
/// lines from `i` on come to decides the whole.
pub open spec fn reports_so_far(all: Seq<Seq<char>>, done: Seq<(Seq<char>, Seq<char>, Seq<char>)>, i: int) -> bool {
    match reports_of_lines(all.skip(i)) {
        Ok(rest) => reports_of_lines(all) == Ok::<_, (Seq<char>, Seq<char>)>(done + rest),
        Err(e) => reports_of_lines(all) == Err::<Seq<(Seq<char>, Seq<char>, Seq<char>)>, _>(e),
    }
}

/// Parse a remote `--format json` stdout into per-flow reports. Blank
/// lines are skipped; any other line that is not JSON, or lacks a
/// string `flow` or `runOutcome`, is refused at the first such line.
pub fn parse_report_lines(stdout: &str) -> (r: Result<Vec<FlowReport>, ReportError>)
    ensures
        match r {
            Ok(v) => reports_of_lines(lines(stdout@)) == Ok::<_, (Seq<char>, Seq<char>)>(report_views(v@)),
            Err(e) => reports_of_lines(lines(stdout@)) == Err::<Seq<(Seq<char>, Seq<char>, Seq<char>)>, _>(report_error_view(e)),
        },
        r is Ok <==> forall|i: int| 0 <= i < lines(stdout@).len() ==> line_reportable(#[trigger] lines(stdout@)[i]),
        r matches Ok(v) ==> report_views(v@) == lines(stdout@).filter(is_report_line()).map_values(report_triple()),
        r matches Err(e) ==> exists|k: int|
            0 <= k < lines(stdout@).len() && !line_reportable(#[trigger] lines(stdout@)[k]) && (forall|j: int|
                0 <= j < k ==> line_reportable(#[trigger] lines(stdout@)[j])) && report_of_line(lines(stdout@)[k])
                == Err::<Option<(Seq<char>, Seq<char>, Seq<char>)>, _>(report_error_view(e)),
{
    proof {
        lemma_every_line_is_a_report_or_the_first_refusal(lines(stdout@));
    }
    let text = chars_of(stdout);
    let ls = lines_of(text.as_slice());
    let ghost all = lines(stdout@);
    let mut reports: Vec<FlowReport> = Vec::new();
    let mut i: usize = 0;
    assert(views(ls@).skip(0) =~= all);
    while i < ls.len()
        invariant
            views(ls@) == all,
            all == lines(stdout@),
            i <= ls@.len(),
            reports_so_far(all, report_views(reports@), i as int),
        decreases ls@.len() - i,
    {
        proof {
            lemma_reports_split(all, i as int);
            lemma_every_line_is_a_report_or_the_first_refusal(all);
        }
        let line = &ls[i];
        assert(line@ == all[i as int]);
        if is_blank(line.as_slice()) {
            i = i + 1;
            continue;
        }
        let line_text = string_of(line.as_slice());
        let flow = read_json_string_member(line_text.as_str(), "flow");
        let outcome = read_json_string_member(line_text.as_str(), "runOutcome");
        assert(member_view(flow) == json_string_member(line@, "flow"@));
        assert(member_view(outcome) == json_string_member(line@, "runOutcome"@));
        let rep = match report_of_members(line_text.as_str(), flow, outcome) {
            Err(e) => {
                return Err(e);
            },
            Ok(None) => {
                i = i + 1;
                continue;
            },
            Ok(Some(rep)) => rep,
        };
        let ghost before = report_views(reports@);
        let ghost one = (rep.flow@, rep.outcome@, rep.raw@);
        reports.push(rep);
        proof {
            assert(report_views(reports@) =~= before.push(one));
            match reports_of_lines(all.skip(i + 1)) {
                Ok(rest) => {
                    assert(before + (seq![one] + rest) =~= report_views(reports@) + rest);
                },
                Err(e) => {},
            }
        }
        i = i + 1;
    }
    proof {
        assert(all.skip(i as int).len() == 0);
        assert(report_views(reports@) + seq![] =~= report_views(reports@));
    }
    Ok(reports)
}

/// One node's outcome: its exit code and the reports parsed off its
/// stdout (none when the transport was lost).
#[derive(Debug, Clone, PartialEq, Eq)]
pub struct NodeResult {
    pub name: String,
    pub exit: u8,
    pub reports: Vec<FlowReport>,
}

/// One node inside the merged report: its name, exit, and its report
/// lines verbatim.
#[derive(Debug, Clone, PartialEq, Eq)]
pub struct MergedNode {
    pub node: String,
    pub exit: u8,
    pub flows: Vec<String>,
}

/// The merged report of a federation batch: every node wrapped under
/// its name and exit, plus the worst-of-nodes aggregate.
#[derive(Debug, Clone, PartialEq, Eq)]
pub struct MergedReport {
    pub nodes: Vec<MergedNode>,
    pub aggregate_exit: u8,
}

/// The exit codes of the nodes, in order.
pub open spec fn node_exits(results: Seq<NodeResult>) -> Seq<u8> {
    results.map_values(|r: NodeResult| r.exit)
}

/// Transport loss always wins: when any node's ssh reported 255, the
/// merged aggregate is 255, whatever the flows on other nodes did.
pub proof fn lemma_transport_failure_wins(results: Seq<NodeResult>, i: int)
    requires
        0 <= i < results.len(),
        results[i].exit == SSH_TRANSPORT_EXIT,
    ensures
        max_code(node_exits(results)) == SSH_TRANSPORT_EXIT,
{
    lemma_aggregate_is_the_worst(node_exits(results));
    assert(node_exits(results)[i] == SSH_TRANSPORT_EXIT);
}

/// Merge per-node results into one report. The aggregate is
/// `aggregate_exit` over the nodes' exits; the flow leaves are the
/// remote report lines untouched.
pub fn merge_reports(results: &[NodeResult]) -> (m: MergedReport)
    ensures
        m.nodes@.len() == results@.len(),
        forall|i: int|
            0 <= i < results@.len() ==> {
                &&& (#[trigger] m.nodes@[i]).node@ == results@[i].name@
                &&& m.nodes@[i].exit == results@[i].exit
                &&& strs(m.nodes@[i].flows@) == results@[i].reports@.map_values(
                    |f: FlowReport| f.raw@,
                )
            },
        m.aggregate_exit == max_code(node_exits(results@)),
{
    let mut nodes: Vec<MergedNode> = Vec::new();
    let mut exits: Vec<u8> = Vec::new();
    let mut i: usize = 0;
    while i < results.len()
        invariant
            i <= results@.len(),
            nodes@.len() == i,
            exits@ == node_exits(results@.take(i as int)),
            forall|j: int|
                0 <= j < i ==> {
                    &&& (#[trigger] nodes@[j]).node@ == results@[j].name@
                    &&& nodes@[j].exit == results@[j].exit
                    &&& strs(nodes@[j].flows@) == results@[j].reports@.map_values(
                        |f: FlowReport| f.raw@,
                    )
                },
        decreases results@.len() - i,
    {
        let r = &results[i];
        let mut flows: Vec<String> = Vec::new();
        let mut k: usize = 0;
        while k < r.reports.len()
            invariant
                k <= r.reports@.len(),
                strs(flows@) == r.reports@.take(k as int).map_values(|f: FlowReport| f.raw@),
            decreases r.reports@.len() - k,
        {
            let ghost before = strs(flows@);
            flows.push(r.reports[k].raw.clone());
            assert(strs(flows@) =~= before.push(r.reports@[k as int].raw@));
            assert(r.reports@.take(k + 1).map_values(|f: FlowReport| f.raw@) =~= r.reports@.take(
                k as int,
            ).map_values(|f: FlowReport| f.raw@).push(r.reports@[k as int].raw@));
            k = k + 1;
        }
        assert(r.reports@.take(k as int) =~= r.reports@);
        nodes.push(MergedNode { node: r.name.clone(), exit: r.exit, flows });
        exits.push(r.exit);
        assert(node_exits(results@.take(i + 1)) =~= node_exits(results@.take(i as int)).push(
            results@[i as int].exit,
        ));
        i = i + 1;
    }
    assert(results@.take(i as int) =~= results@);
    let aggregate = aggregate_exit(exits.as_slice());
    MergedReport { nodes, aggregate_exit: aggregate }
}


/// How a POSIX shell reads one word: outside quotes a `\` takes the next
/// character literally and a `'` opens a quoted run; inside one every
/// character is literal until the closing `'`.
pub open spec fn sh_read(w: Seq<char>, quoting: bool) -> Seq<char>
    decreases w.len(),
{
    if w.len() == 0 {
        seq![]
    } else if quoting {
        if w[0] == '\'' {
            sh_read(w.drop_first(), false)
        } else {
            seq![w[0]] + sh_read(w.drop_first(), true)
        }
    } else if w[0] == '\'' {
        sh_read(w.drop_first(), true)
    } else if w[0] == '\\' && w.len() >= 2 {
        seq![w[1]] + sh_read(w.skip(2), false)
    } else {
        seq![w[0]] + sh_read(w.drop_first(), false)
    }
}

proof fn lemma_quote_body_concat(a: Seq<char>, b: Seq<char>)
    ensures
        quote_body(a + b) == quote_body(a) + quote_body(b),
    decreases b.len(),
{
    if b.len() == 0 {
        assert(a + b =~= a);
        assert(quote_body(a) + quote_body(b) =~= quote_body(a));
    } else {
        lemma_quote_body_concat(a, b.drop_last());
        assert((a + b).drop_last() =~= a + b.drop_last());
        assert((a + b).last() == b.last());
        let tail = if b.last() == '\'' {
            seq!['\'', '\\', '\'', '\'']
        } else {
            seq![b.last()]
        };
        assert(quote_body(a) + quote_body(b.drop_last()) + tail =~= quote_body(a) + (quote_body(b.drop_last()) + tail));
    }
}

proof fn lemma_read_quoted_body(s: Seq<char>, rest: Seq<char>)
    ensures
        sh_read(quote_body(s) + seq!['\''] + rest, true) == s + sh_read(rest, false),
    decreases s.len(),
{
    if s.len() == 0 {
        assert(quote_body(s) + seq!['\''] + rest =~= seq!['\''] + rest);
        assert((seq!['\''] + rest).drop_first() =~= rest);
        assert(s + sh_read(rest, false) =~= sh_read(rest, false));
    } else {
        let c = s[0];
        let t = s.drop_first();
        assert(s =~= seq![c] + t);
        lemma_quote_body_concat(seq![c], t);
        assert(seq![c].drop_last() =~= Seq::<char>::empty());
        assert(seq![c].last() == c);
        assert(quote_body(seq![c].drop_last()) =~= Seq::<char>::empty());
        lemma_read_quoted_body(t, rest);
        let x = quote_body(t) + seq!['\''] + rest;
        if c == '\'' {
            assert(quote_body(seq![c]) =~= seq!['\'', '\\', '\'', '\'']);
            let w = seq!['\'', '\\', '\'', '\''] + x;
            assert(quote_body(s) + seq!['\''] + rest =~= w);
            assert(w.drop_first() =~= seq!['\\', '\'', '\''] + x);
            let w1 = seq!['\\', '\'', '\''] + x;
            assert(w1.skip(2) =~= seq!['\''] + x);
            assert((seq!['\''] + x).drop_first() =~= x);
            assert(sh_read(w, true) == sh_read(w1, false));
            assert(sh_read(w1, false) == seq!['\''] + sh_read(seq!['\''] + x, false));
            assert(sh_read(seq!['\''] + x, false) == sh_read(x, true));
            assert(seq!['\''] + (t + sh_read(rest, false)) =~= s + sh_read(rest, false));
        } else {
            assert(quote_body(seq![c]) =~= seq![c]);
            let w = seq![c] + x;
            assert(quote_body(s) + seq!['\''] + rest =~= w);
            assert(w.drop_first() =~= x);
            assert(seq![c] + (t + sh_read(rest, false)) =~= s + sh_read(rest, false));
        }
    }
}

/// What the remote shell reads back from a quoted string is the string:
/// quoting survives spaces, single quotes and every other character.
pub proof fn lemma_the_shell_reads_back_what_was_quoted(s: Seq<char>)
    ensures
        sh_read(quoted(s), false) == s,
{
    let w = quoted(s);
    assert(w.drop_first() =~= quote_body(s) + seq!['\''] + Seq::<char>::empty());
    lemma_read_quoted_body(s, Seq::<char>::empty());
    assert(s + sh_read(Seq::<char>::empty(), false) =~= s);
}


/// The flags a node's leaf run is given, each quoted for the remote
/// shell: the same as a local shard's, except that artifacts, when asked
/// for, go to [`FED_ARTIFACT_DIR`] in the node's repo (the local
/// directory is where they are pulled to).
pub fn federation_passthrough(f: &RunFlags, debug_output: bool) -> (r: Vec<String>)
    ensures
        strs(r@) == all_quoted(passthrough_tokens(*f, if debug_output {
            Some(FED_ARTIFACT_DIR@)
        } else {
            None
        })),
{
    let raw = if debug_output {
        run_passthrough(f, Some(FED_ARTIFACT_DIR))
    } else {
        run_passthrough(f, None)
    };
    quote_all(raw.as_slice())
}


/// One slot's outcome from what its ssh run gave back: the run's exit
/// and the reports parsed off its stdout. A transport-lost run (exit
/// 255) has no usable stdout and carries no reports; any other stdout
/// must parse.
pub fn node_result(name: &str, out: &RemoteOutput) -> (r: Result<NodeResult, ReportError>)
    ensures
        out.exit == SSH_TRANSPORT_EXIT ==> (r matches Ok(n) && n.name@ == name@ && n.exit == out.exit
            && n.reports@.len() == 0),
        out.exit != SSH_TRANSPORT_EXIT ==> match r {
            Ok(n) => n.name@ == name@ && n.exit == out.exit && reports_of_lines(lines(out.stdout@))
                == Ok::<_, (Seq<char>, Seq<char>)>(report_views(n.reports@)),
            Err(e) => reports_of_lines(lines(out.stdout@)) == Err::<Seq<(Seq<char>, Seq<char>, Seq<char>)>, _>(
                report_error_view(e),
            ),
        },
{
    if is_transport_failure(out.exit) {
        return Ok(NodeResult { name: owned(name), exit: out.exit, reports: Vec::new() });
    }
    match parse_report_lines(out.stdout.as_str()) {
        Ok(reports) => Ok(NodeResult { name: owned(name), exit: out.exit, reports }),
        Err(e) => Err(e),
    }
}

} // verus!
