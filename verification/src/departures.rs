//! Devices that left without smix hearing about it: the line that
//! notices one, and what `smix lease history` prints of each.

use vstd::prelude::*;
use crate::runner::{last_lines, tail_of};
use crate::text::{decimal, owned, push_decimal, strs};

verus! {

broadcast use vstd::string::group_string_axioms;

/// How much of a dead emulator's console is kept with its departure: the
/// last screenful.
pub const CONSOLE_TAIL_LINES: usize = 20;

/// One departure, as the history keeps it.
#[derive(Debug, Clone, PartialEq, Eq)]
pub struct Departure {
    pub device_id: String,
    /// The emulator's AVD, when it was one.
    pub avd: Option<String>,
    /// What the device's port answers for now, when something else took it.
    pub slot_now: Option<String>,
    pub last_heartbeat: String,
    pub holder_pid: u32,
    pub holder_cmd: String,
    pub holder_alive: bool,
    pub booted_by_smix: bool,
    pub noticed_at: String,
    pub noticed_by: String,
    pub console_log: Option<String>,
    pub console_tail: Vec<String>,
}

/// One departure in one line: what left, when it was last heard from,
/// and who held it.
pub open spec fn departure_line_spec(v: Departure) -> Seq<char> {
    (match v.avd {
        Some(avd) => v.device_id@ + " (AVD "@ + avd@ + ")"@,
        None => v.device_id@,
    }) + " left without smix hearing about it"@ + (match v.slot_now {
        Some(other) => "; its port now answers for `"@ + other@ + "`"@,
        None => seq![],
    }) + ". Last heard from at "@ + v.last_heartbeat@ + ", held by pid "@ + decimal(v.holder_pid as nat) + " (`"@
        + v.holder_cmd@ + "`, "@ + (if v.holder_alive {
        "still running"@
    } else {
        "no longer running"@
    }) + ")"@ + if v.booted_by_smix {
        "; smix booted it"@
    } else {
        seq![]
    }
}

pub fn departure_line(v: &Departure) -> (s: String)
    ensures
        s@ == departure_line_spec(*v),
{
    let mut s = owned(v.device_id.as_str());
    match &v.avd {
        Some(avd) => {
            s.append(" (AVD ");
            s.append(avd.as_str());
            s.append(")");
        },
        None => {},
    }
    s.append(" left without smix hearing about it");
    match &v.slot_now {
        Some(other) => {
            s.append("; its port now answers for `");
            s.append(other.as_str());
            s.append("`");
        },
        None => {},
    }
    s.append(". Last heard from at ");
    s.append(v.last_heartbeat.as_str());
    s.append(", held by pid ");
    push_decimal(&mut s, v.holder_pid as usize);
    s.append(" (`");
    s.append(v.holder_cmd.as_str());
    s.append("`, ");
    if v.holder_alive {
        s.append("still running");
    } else {
        s.append("no longer running");
    }
    s.append(")");
    if v.booted_by_smix {
        s.append("; smix booted it");
    }
    proof {
        assert(s@ =~= departure_line_spec(*v));
    }
    s
}

/// What is printed the moment a departure is first recorded.
pub fn noticed_line(v: &Departure) -> (s: String)
    ensures
        s@ == "note: "@ + departure_line_spec(*v) + " — recorded; `smix lease history` has it"@,
{
    let mut s = owned("note: ");
    let line = departure_line(v);
    s.append(line.as_str());
    s.append(" — recorded; `smix lease history` has it");
    s
}

/// What `smix lease history` prints of one departure: when and by whom
/// it was noticed, the departure, the console log it had, and the last
/// lines of that console.
pub open spec fn history_lines_spec(v: Departure) -> Seq<Seq<char>> {
    seq![v.noticed_at@ + "  noticed by `"@ + v.noticed_by@ + "`"@, "  "@ + departure_line_spec(v)] + (match v.console_log {
        Some(log) => seq!["  console: "@ + log@],
        None => seq![],
    }) + strs(v.console_tail@).map_values(|l: Seq<char>| "    | "@ + l)
}

pub fn history_lines(v: &Departure) -> (r: Vec<String>)
    ensures
        strs(r@) == history_lines_spec(*v),
{
    let mut r: Vec<String> = Vec::new();
    let mut first = owned(v.noticed_at.as_str());
    first.append("  noticed by `");
    first.append(v.noticed_by.as_str());
    first.append("`");
    r.push(first);
    let mut second = owned("  ");
    let line = departure_line(v);
    second.append(line.as_str());
    r.push(second);
    match &v.console_log {
        Some(log) => {
            let mut c = owned("  console: ");
            c.append(log.as_str());
            r.push(c);
        },
        None => {},
    }
    let ghost head = strs(r@);
    assert(head =~= seq![v.noticed_at@ + "  noticed by `"@ + v.noticed_by@ + "`"@, "  "@ + departure_line_spec(*v)]
        + (match v.console_log {
        Some(log) => seq!["  console: "@ + log@],
        None => seq![],
    }));
    let ghost tail = strs(v.console_tail@);
    let mut i: usize = 0;
    while i < v.console_tail.len()
        invariant
            i <= tail.len(),
            tail == strs(v.console_tail@),
            strs(r@) == head + tail.take(i as int).map_values(|l: Seq<char>| "    | "@ + l),
        decreases tail.len() - i,
    {
        let mut l = owned("    | ");
        l.append(v.console_tail[i].as_str());
        let ghost before = strs(r@);
        r.push(l);
        assert(strs(r@) =~= before.push(l@));
        assert(tail.take(i + 1).map_values(|l: Seq<char>| "    | "@ + l) =~= tail.take(i as int).map_values(
            |l: Seq<char>| "    | "@ + l,
        ).push("    | "@ + tail[i as int]));
        i = i + 1;
    }
    assert(tail.take(i as int) =~= tail);
    r
}

/// What `smix lease history` says when nothing has left.
pub fn empty_history(history_file: &str) -> (s: String)
    ensures
        s@ == "no device has left without smix hearing about it (history: "@ + history_file@ + ")"@,
{
    let mut s = owned("no device has left without smix hearing about it (history: ");
    s.append(history_file);
    s.append(")");
    s
}

/// The console kept with a departure: its last [`CONSOLE_TAIL_LINES`]
/// lines.
pub fn console_tail(text: &str) -> (r: Vec<String>)
    ensures
        strs(r@) == tail_of(text@, CONSOLE_TAIL_LINES as nat),
{
    last_lines(text, CONSOLE_TAIL_LINES)
}

/// What is kept in place of a console that could not be read.
pub fn console_unreadable(path: &str, reason: &str) -> (r: Vec<String>)
    ensures
        strs(r@) == seq!["(the console log "@ + path@ + " could not be read: "@ + reason@ + ")"@],
{
    let mut m = owned("(the console log ");
    m.append(path);
    m.append(" could not be read: ");
    m.append(reason);
    m.append(")");
    let mut r: Vec<String> = Vec::new();
    r.push(m);
    assert(strs(r@) =~= seq![r@[0]@]);
    r
}

} // verus!
