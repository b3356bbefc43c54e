//! `smix runner list`: the runners this machine's ledgers record and the
//! ones listening on it, one block per runner.

use vstd::prelude::*;
use crate::listing::{pad, push_padded};
use crate::text::{decimal, decimal_string, owned, push_decimal, strs};

verus! {

broadcast use vstd::string::group_string_axioms;

/// How a runner was seen: by ledger, by listening process, or both.
#[derive(Debug, Clone, PartialEq, Eq)]
pub enum Seen {
    /// Recorded and listening: the app inside the simulator answers, and
    /// the ledger names the `xcodebuild` session on this host.
    Both { app_pid: u32, ledger_session_pid: u32, live_session_pid: Option<u32> },
    /// Recorded, but nothing listens there.
    LedgerOnly { ledger_pid: u32 },
    /// Listening, but no ledger of this machine records it;
    /// `named_by_checkout` when the checkout's own book names the device.
    ProcessOnly { app_pid: u32, session_pid: Option<u32>, named_by_checkout: bool },
    /// Recorded, and not looked at, for the reason given.
    NotProbed { ledger_pid: u32, why: String },
}

/// `:{port:<6} {device:<40} `, the head of a runner's first line.
pub open spec fn row_head(port: u16, device_id: Seq<char>) -> Seq<char> {
    ":"@ + pad(decimal(port as nat), 6) + " "@ + pad(device_id, 40) + " "@
}

/// `{"":>8} `: the indent of a runner's follow-up lines.
pub open spec fn indent() -> Seq<char> {
    "         "@
}

/// The lines `smix runner list` prints for one runner. `checkout` is the
/// checkout whose book was read, when there is one.
pub open spec fn runner_lines(port: u16, device_id: Seq<char>, seen: Seen, checkout: Option<Seq<char>>) -> Seq<Seq<char>> {
    match seen {
        Seen::Both { app_pid, ledger_session_pid, live_session_pid } => seq![
            row_head(port, device_id) + "both          app pid "@ + decimal(app_pid as nat)
                + ", ledger session pid "@ + decimal(ledger_session_pid as nat),
        ] + match live_session_pid {
            Some(live) => if live != ledger_session_pid {
                seq![indent() + "the session driving it now is pid "@ + decimal(live as nat) + ", not the one recorded"@]
            } else {
                seq![]
            },
            None => seq![
                indent()
                    + "no xcodebuild session here answers for it — it keeps serving after the session that started it exits"@,
            ],
        },
        Seen::LedgerOnly { ledger_pid } => seq![
            row_head(port, device_id) + "ledger-only   recorded at pid "@ + decimal(ledger_pid as nat)
                + "; nothing is listening there"@,
        ],
        Seen::ProcessOnly { app_pid, session_pid, named_by_checkout } => seq![
            row_head(port, device_id) + "process-only  app pid "@ + decimal(app_pid as nat) + match session_pid {
                Some(p) => ", session pid "@ + decimal(p as nat),
                None => seq![],
            },
            indent() + "this machine's ledgers have no record of it."@,
        ] + match checkout {
            Some(c) => if named_by_checkout {
                seq![indent() + c + " names this device — that book is evidence about where to look, not authority."@]
            } else {
                seq![]
            },
            None => seq![],
        },
        Seen::NotProbed { ledger_pid, why } => seq![
            row_head(port, device_id) + "not-probed    recorded at pid "@ + decimal(ledger_pid as nat) + " — "@ + why@,
        ],
    }
}

fn head(port: u16, device_id: &str) -> (s: String)
    ensures
        s@ == row_head(port, device_id@),
{
    let mut s = owned(":");
    let p = decimal_string(port as usize);
    push_padded(&mut s, p.as_str(), 6);
    s.append(" ");
    push_padded(&mut s, device_id, 40);
    s.append(" ");
    s
}

pub fn runner_list_lines(port: u16, device_id: &str, seen: &Seen, checkout: Option<&str>) -> (r: Vec<String>)
    ensures
        strs(r@) == runner_lines(port, device_id@, *seen, match checkout {
            Some(c) => Some(c@),
            None => None,
        }),
{
    let ghost want = runner_lines(port, device_id@, *seen, match checkout {
        Some(c) => Some(c@),
        None => None,
    });
    let mut r: Vec<String> = Vec::new();
    let mut first = head(port, device_id);
    match seen {
        Seen::Both { app_pid, ledger_session_pid, live_session_pid } => {
            first.append("both          app pid ");
            push_decimal(&mut first, *app_pid as usize);
            first.append(", ledger session pid ");
            push_decimal(&mut first, *ledger_session_pid as usize);
            let ghost f = first@;
            r.push(first);
            assert(strs(r@) =~= seq![f]);
            match live_session_pid {
                Some(live) => {
                    if *live != *ledger_session_pid {
                        let mut l = owned("         ");
                        l.append("the session driving it now is pid ");
                        push_decimal(&mut l, *live as usize);
                        l.append(", not the one recorded");
                        let ghost lv = l@;
                        r.push(l);
                        assert(strs(r@) =~= seq![f, lv]);
                    }
                },
                None => {
                    let mut l = owned("         ");
                    l.append(
                        "no xcodebuild session here answers for it — it keeps serving after the session that started it exits",
                    );
                    let ghost lv = l@;
                    r.push(l);
                    assert(strs(r@) =~= seq![f, lv]);
                },
            }
            assert(strs(r@) =~= want);
        },
        Seen::LedgerOnly { ledger_pid } => {
            first.append("ledger-only   recorded at pid ");
            push_decimal(&mut first, *ledger_pid as usize);
            first.append("; nothing is listening there");
            let ghost f = first@;
            r.push(first);
            assert(strs(r@) =~= seq![f]);
        },
        Seen::ProcessOnly { app_pid, session_pid, named_by_checkout } => {
            first.append("process-only  app pid ");
            push_decimal(&mut first, *app_pid as usize);
            match session_pid {
                Some(p) => {
                    first.append(", session pid ");
                    push_decimal(&mut first, *p as usize);
                },
                None => {},
            }
            let ghost f = first@;
            assert(f =~= row_head(port, device_id@) + "process-only  app pid "@ + decimal(*app_pid as nat) + match *session_pid {
                Some(p) => ", session pid "@ + decimal(p as nat),
                None => seq![],
            });
            r.push(first);
            let mut l = owned("         ");
            l.append("this machine's ledgers have no record of it.");
            let ghost lv = l@;
            r.push(l);
            assert(strs(r@) =~= seq![f, lv]);
            match checkout {
                Some(c) => {
                    if *named_by_checkout {
                        let mut l2 = owned("         ");
                        l2.append(c);
                        l2.append(" names this device — that book is evidence about where to look, not authority.");
                        let ghost l2v = l2@;
                        r.push(l2);
                        assert(strs(r@) =~= seq![f, lv, l2v]);
                    }
                },
                None => {},
            }
            assert(strs(r@) =~= want);
        },
        Seen::NotProbed { ledger_pid, why } => {
            first.append("not-probed    recorded at pid ");
            push_decimal(&mut first, *ledger_pid as usize);
            first.append(" — ");
            first.append(why.as_str());
            let ghost f = first@;
            r.push(first);
            assert(strs(r@) =~= seq![f]);
            assert(strs(r@) =~= want);
        },
    }
    r
}

/// What `smix runner list` says when there is nothing to list.
pub fn runner_list_empty(leases: &str) -> (s: String)
    ensures
        s@ == "no runner ledgers under "@ + leases@ + ", and nothing on this machine is listening as a smix runner"@,
{
    let mut s = owned("no runner ledgers under ");
    s.append(leases);
    s.append(", and nothing on this machine is listening as a smix runner");
    s
}

} // verus!
