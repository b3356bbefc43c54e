//! Whether this machine can drive anything yet, and what to run next.
//!
//! The caller gathers [`Facts`] (running simctl, reading the
//! filesystem); everything after that is this pure judgement, which
//! orders the checks by dependency and stops at the first blocked one.

use vstd::prelude::*;
use crate::text::{decimal, owned, push_decimal, strs};

verus! {

broadcast use vstd::string::group_string_axioms;

/// What the environment looks like. Gathered by the caller.
#[derive(Debug, Clone)]
pub struct Facts {
    /// `None` when `xcrun simctl` could not be run at all.
    pub simctl: Option<SimctlFacts>,
    /// `None` when no `.smix` registry was found from the working directory.
    pub registry: Option<RegistryFacts>,
    /// Whether something is already answering on the runner port.
    pub runner_up: bool,
    /// Whether this workspace's store could still be opened by a smix
    /// built against kevy 3; `None` when the question does not apply.
    pub downgradeable: Option<bool>,
    /// Whether the capture server is answering.
    pub capture_server_up: bool,
}

/// What simctl reported.
#[derive(Debug, Clone)]
pub struct SimctlFacts {
    /// Runtimes marked available.
    pub available_runtimes: usize,
    /// Devices marked available.
    pub available_devices: usize,
}

/// What the workspace registry holds.
#[derive(Debug, Clone)]
pub struct RegistryFacts {
    /// Aliases registered. Zero means the file exists but names no device.
    pub aliases: usize,
    /// An alias to suggest in the next command.
    pub first_alias: Option<String>,
}

/// How one check came out.
#[derive(Debug, Clone, Copy, PartialEq, Eq, Structural)]
pub enum Status {
    /// Satisfied.
    Satisfied,
    /// Not satisfied, and it is what stands between here and driving.
    Blocked,
    /// Not looked at, because something it depends on is blocked.
    Skipped,
}

/// One line of the verdict.
#[derive(Debug, Clone)]
pub struct Check {
    /// Stable identifier, so a script can match on something other than prose.
    pub id: &'static str,
    /// How it came out.
    pub status: Status,
    /// What was found, in a sentence.
    pub detail: String,
}

/// The command to run next, and why it is the one.
#[derive(Debug, Clone)]
pub struct NextStep {
    /// Ready to paste into a shell.
    pub command: String,
    /// What running it gets you.
    pub reason: String,
}

/// The verdict.
#[derive(Debug, Clone)]
pub struct Readiness {
    /// True when nothing is blocked and there is nothing left to set up.
    pub ready: bool,
    /// Every check, in dependency order.
    pub checks: Vec<Check>,
    /// `None` exactly when `ready` is true.
    pub next: Option<NextStep>,
}

/// The platform boundary, stated once.
pub const PLATFORM_NOTE: &'static str = "smix drives iOS Simulators, Android emulators, and — once registered — physical iPhones and Android devices. A physical iPhone must be unlocked.";

/// A check by its characters: id, status, detail.
pub type CheckView = (Seq<char>, Status, Seq<char>);

/// A verdict by its characters: ready, the checks, the next step's
/// command and reason.
pub type ReadinessView = (bool, Seq<CheckView>, Option<(Seq<char>, Seq<char>)>);

pub open spec fn check_view(c: Check) -> CheckView {
    (c.id@, c.status, c.detail@)
}

pub open spec fn readiness_view(r: Readiness) -> ReadinessView {
    (
        r.ready,
        r.checks@.map_values(|c: Check| check_view(c)),
        match r.next {
            Some(n) => Some((n.command@, n.reason@)),
            None => None,
        },
    )
}

/// The chain of checks below the standing store fact, in order.
pub open spec fn check_order() -> Seq<Seq<char>> {
    seq!["simctl"@, "runtime"@, "device"@, "registry"@, "runner"@]
}

pub open spec fn skipped_detail() -> Seq<char> {
    "not checked — an earlier step has to pass first"@
}

/// Stop at the blocked check at position `pos` of the chain: every
/// check below it is reported as skipped rather than left out, so the
/// verdict shows the whole path and where along it the reader stands;
/// the verdict names the command to run.
pub open spec fn finish_blocked(checks: Seq<CheckView>, command: Seq<char>, reason: Seq<char>, pos: nat) -> ReadinessView {
    (false, checks + skipped_below(pos), Some((command, reason)))
}

/// The chain below position `pos`, each check reported as skipped.
pub open spec fn skipped_below(pos: nat) -> Seq<CheckView> {
    check_order().skip(pos as int + 1).map_values(|id: Seq<char>| (id, Status::Skipped, skipped_detail()))
}

/// The store line, when the question applies.
pub open spec fn store_checks(downgradeable: Option<bool>) -> Seq<CheckView> {
    match downgradeable {
        Some(true) => seq![
            ("store"@, Status::Satisfied, "the store is still readable by kevy 3 — downgrading smix is an install away"@),
        ],
        Some(false) => seq![
            ("store"@, Status::Satisfied, "the store has upgraded its log format — going back to an older smix now needs a keyspace export through a client, not an install"@),
        ],
        None => seq![],
    }
}

/// The alias the next command should name.
pub open spec fn suggested_alias(r: RegistryFacts) -> Seq<char> {
    match r.first_alias {
        Some(a) => a@,
        None => "dev"@,
    }
}

/// The judgement, by its characters.
pub open spec fn verdict(f: Facts) -> ReadinessView {
    let c0 = store_checks(f.downgradeable);
    match f.simctl {
        None => finish_blocked(
            c0 + seq![("simctl"@, Status::Blocked, "xcrun simctl could not be run — the Xcode command-line tools are not installed, or no Xcode is selected"@)],
            "xcode-select --install"@,
            "installs the command-line tools smix drives the simulator through"@,
            0,
        ),
        Some(s) => {
            let c1 = c0 + seq![("simctl"@, Status::Satisfied, "xcrun simctl reachable"@)];
            if s.available_runtimes == 0 {
                finish_blocked(
                    c1 + seq![("runtime"@, Status::Blocked, "no available simulator runtime — Xcode is installed but carries no usable iOS runtime"@)],
                    "xcodebuild -downloadPlatform iOS"@,
                    "downloads an iOS runtime, without which no simulator can boot"@,
                    1,
                )
            } else {
                let c2 = c1 + seq![("runtime"@, Status::Satisfied, decimal(s.available_runtimes as nat) + " runtimes available"@)];
                if s.available_devices == 0 {
                    finish_blocked(
                        c2 + seq![("device"@, Status::Blocked, "no available simulator — a runtime is installed but no device uses it"@)],
                        "xcrun simctl create smix-dev 'iPhone 17 Pro' <runtime-id>"@,
                        "creates a simulator for smix to register and drive"@,
                        2,
                    )
                } else {
                    let c3 = c2 + seq![("device"@, Status::Satisfied, decimal(s.available_devices as nat) + " simulators available"@)];
                    match f.registry {
                        Some(r) if r.aliases > 0 => {
                            let c4 = c3 + seq![("registry"@, Status::Satisfied, decimal(r.aliases as nat) + " device(s) registered in .smix"@)];
                            if !f.runner_up {
                                let flags = if f.capture_server_up { ""@ } else { " --no-capture"@ };
                                let note = if f.capture_server_up {
                                    ""@
                                } else {
                                    " (--no-capture because the capture server is not running; start smix-server first to record the session)"@
                                };
                                finish_blocked(
                                    c4 + seq![("runner"@, Status::Blocked, "no runner answering — sense and act need one on the device"@)],
                                    "smix capsule up "@ + suggested_alias(r) + " --bundle <your.bundle.id>"@ + flags,
                                    "boots the device and starts the runner that carries every tap and query"@ + note,
                                    4,
                                )
                            } else {
                                (true, c4 + seq![("runner"@, Status::Satisfied, "runner answering"@)], None)
                            }
                        },
                        _ => finish_blocked(
                            c3 + seq![("registry"@, Status::Blocked, "no device registered in .smix — every smix command takes an explicit device, and an alias is where that comes from"@)],
                            "smix init"@,
                            "registers a simulator under an alias and creates the .smix registry"@,
                            3,
                        ),
                    }
                }
            }
        },
    }
}

/// Every check before the blocked one passed, and every check after it
/// was not looked at.
pub open spec fn stops_at_first_blocked(checks: Seq<CheckView>) -> bool {
    forall|i: int, j: int|
        0 <= i < checks.len() && 0 <= j < checks.len() && (#[trigger] checks[i]).1 == Status::Blocked
            ==> (j < i ==> (#[trigger] checks[j]).1 == Status::Satisfied) && (j > i ==> checks[j].1
            == Status::Skipped)
}

proof fn lemma_finish_blocked_shape(prefix: Seq<CheckView>, last: CheckView, command: Seq<char>, reason: Seq<char>, pos: nat)
    requires
        forall|i: int| 0 <= i < prefix.len() ==> (#[trigger] prefix[i]).1 == Status::Satisfied,
        last.1 == Status::Blocked,
    ensures
        !finish_blocked(prefix.push(last), command, reason, pos).0,
        finish_blocked(prefix.push(last), command, reason, pos).2 == Some((command, reason)),
        stops_at_first_blocked(finish_blocked(prefix.push(last), command, reason, pos).1),
{
    let out = finish_blocked(prefix.push(last), command, reason, pos).1;
    let n = prefix.len() as int;
    assert forall|k: int| 0 <= k < out.len() implies (#[trigger] out[k]).1 == (if k < n {
        Status::Satisfied
    } else if k == n {
        Status::Blocked
    } else {
        Status::Skipped
    }) by {
        if k < n {
            assert(out[k] == prefix[k]);
        }
    }
}

/// The shape every verdict has: it is ready exactly when there is no
/// next command; a ready verdict passed every check; and a verdict stops
/// at its first blocked check, with everything before it passed and
/// everything after it skipped. The store line, when the question
/// applies, comes first and never blocks.
pub proof fn lemma_verdict_shape(f: Facts)
    ensures
        verdict(f).0 <==> verdict(f).2 is None,
        verdict(f).0 ==> forall|i: int| 0 <= i < verdict(f).1.len() ==> (#[trigger] verdict(f).1[i]).1
            == Status::Satisfied,
        stops_at_first_blocked(verdict(f).1),
        f.downgradeable is Some ==> verdict(f).1.len() > 0 && verdict(f).1[0].0 == "store"@
            && verdict(f).1[0].1 == Status::Satisfied,
{
    reveal_strlit("store");
    reveal_strlit("simctl");
    reveal_strlit("runtime");
    reveal_strlit("device");
    reveal_strlit("registry");
    reveal_strlit("runner");
    let c0 = store_checks(f.downgradeable);
    assert(forall|i: int| 0 <= i < c0.len() ==> (#[trigger] c0[i]).1 == Status::Satisfied);
    match f.simctl {
        None => {
            let last = ("simctl"@, Status::Blocked, "xcrun simctl could not be run — the Xcode command-line tools are not installed, or no Xcode is selected"@);
            lemma_finish_blocked_shape(c0, last, "xcode-select --install"@, "installs the command-line tools smix drives the simulator through"@, 0);
            assert(c0 + seq![last] =~= c0.push(last));
        },
        Some(s) => {
            let c1 = c0 + seq![("simctl"@, Status::Satisfied, "xcrun simctl reachable"@)];
            assert(forall|i: int| 0 <= i < c1.len() ==> (#[trigger] c1[i]).1 == Status::Satisfied);
            if s.available_runtimes == 0 {
                let last = ("runtime"@, Status::Blocked, "no available simulator runtime — Xcode is installed but carries no usable iOS runtime"@);
                lemma_finish_blocked_shape(c1, last, "xcodebuild -downloadPlatform iOS"@, "downloads an iOS runtime, without which no simulator can boot"@, 1);
                assert(c1 + seq![last] =~= c1.push(last));
            } else {
                let c2 = c1 + seq![("runtime"@, Status::Satisfied, decimal(s.available_runtimes as nat) + " runtimes available"@)];
                assert(forall|i: int| 0 <= i < c2.len() ==> (#[trigger] c2[i]).1 == Status::Satisfied);
                if s.available_devices == 0 {
                    let last = ("device"@, Status::Blocked, "no available simulator — a runtime is installed but no device uses it"@);
                    lemma_finish_blocked_shape(c2, last, "xcrun simctl create smix-dev 'iPhone 17 Pro' <runtime-id>"@, "creates a simulator for smix to register and drive"@, 2);
                    assert(c2 + seq![last] =~= c2.push(last));
                } else {
                    let c3 = c2 + seq![("device"@, Status::Satisfied, decimal(s.available_devices as nat) + " simulators available"@)];
                    assert(forall|i: int| 0 <= i < c3.len() ==> (#[trigger] c3[i]).1 == Status::Satisfied);
                    match f.registry {
                        Some(r) if r.aliases > 0 => {
                            let c4 = c3 + seq![("registry"@, Status::Satisfied, decimal(r.aliases as nat) + " device(s) registered in .smix"@)];
                            assert(forall|i: int| 0 <= i < c4.len() ==> (#[trigger] c4[i]).1 == Status::Satisfied);
                            if !f.runner_up {
                                let flags = if f.capture_server_up { ""@ } else { " --no-capture"@ };
                                let note = if f.capture_server_up {
                                    ""@
                                } else {
                                    " (--no-capture because the capture server is not running; start smix-server first to record the session)"@
                                };
                                let last = ("runner"@, Status::Blocked, "no runner answering — sense and act need one on the device"@);
                                lemma_finish_blocked_shape(
                                    c4,
                                    last,
                                    "smix capsule up "@ + suggested_alias(r) + " --bundle <your.bundle.id>"@ + flags,
                                    "boots the device and starts the runner that carries every tap and query"@ + note,
                                    4,
                                );
                                assert(c4 + seq![last] =~= c4.push(last));
                            } else {
                                let out = c4 + seq![("runner"@, Status::Satisfied, "runner answering"@)];
                                assert(forall|i: int| 0 <= i < out.len() ==> (#[trigger] out[i]).1 == Status::Satisfied);
                            }
                        },
                        _ => {
                            let last = ("registry"@, Status::Blocked, "no device registered in .smix — every smix command takes an explicit device, and an alias is where that comes from"@);
                            lemma_finish_blocked_shape(c3, last, "smix init"@, "registers a simulator under an alias and creates the .smix registry"@, 3);
                            assert(c3 + seq![last] =~= c3.push(last));
                        },
                    }
                }
            }
        },
    }
}

proof fn lemma_chain_ids(c0: Seq<CheckView>, done: Seq<CheckView>, pos: nat)
    requires
        pos < 5,
        done.len() == pos + 1,
        forall|i: int| 0 <= i <= pos ==> (#[trigger] done[i]).0 == check_order()[i],
    ensures
        (c0 + done + skipped_below(pos)).len() == c0.len() + 5,
        forall|i: int| 0 <= i < 5 ==> (#[trigger] (c0 + done + skipped_below(pos))[c0.len() + i]).0 == check_order()[i],
{
    let all = c0 + done + skipped_below(pos);
    assert forall|i: int| 0 <= i < 5 implies (#[trigger] all[c0.len() + i]).0 == check_order()[i] by {
        if i <= pos {
            assert(all[c0.len() + i] == done[i]);
        } else {
            assert(all[c0.len() + i] == skipped_below(pos)[i - pos - 1]);
            assert(check_order().skip(pos as int + 1)[i - pos - 1] == check_order()[i]);
        }
    }
}

/// Every verdict shows the whole chain: after the store line, when there
/// is one, come all five checks in dependency order, the ones below a
/// blocked check reported as skipped and none left out.
pub proof fn lemma_the_whole_path_is_shown(f: Facts)
    ensures
        verdict(f).1.len() == store_checks(f.downgradeable).len() + 5,
        forall|i: int| 0 <= i < 5 ==> (#[trigger] verdict(f).1[store_checks(f.downgradeable).len() + i]).0
            == check_order()[i],
{
    let c0 = store_checks(f.downgradeable);
    match f.simctl {
        None => {
            let last = ("simctl"@, Status::Blocked, "xcrun simctl could not be run — the Xcode command-line tools are not installed, or no Xcode is selected"@);
            lemma_chain_ids(c0, seq![last], 0);
        },
        Some(s) => {
            let a = ("simctl"@, Status::Satisfied, "xcrun simctl reachable"@);
            let c1 = c0 + seq![a];
            if s.available_runtimes == 0 {
                let last = ("runtime"@, Status::Blocked, "no available simulator runtime — Xcode is installed but carries no usable iOS runtime"@);
                assert(c1 + seq![last] =~= c0 + seq![a, last]);
                lemma_chain_ids(c0, seq![a, last], 1);
            } else {
                let b = ("runtime"@, Status::Satisfied, decimal(s.available_runtimes as nat) + " runtimes available"@);
                let c2 = c1 + seq![b];
                if s.available_devices == 0 {
                    let last = ("device"@, Status::Blocked, "no available simulator — a runtime is installed but no device uses it"@);
                    assert(c2 + seq![last] =~= c0 + seq![a, b, last]);
                    lemma_chain_ids(c0, seq![a, b, last], 2);
                } else {
                    let c = ("device"@, Status::Satisfied, decimal(s.available_devices as nat) + " simulators available"@);
                    let c3 = c2 + seq![c];
                    match f.registry {
                        Some(r) if r.aliases > 0 => {
                            let d = ("registry"@, Status::Satisfied, decimal(r.aliases as nat) + " device(s) registered in .smix"@);
                            let c4 = c3 + seq![d];
                            if !f.runner_up {
                                let last = ("runner"@, Status::Blocked, "no runner answering — sense and act need one on the device"@);
                                assert(c4 + seq![last] =~= c0 + seq![a, b, c, d, last]);
                                lemma_chain_ids(c0, seq![a, b, c, d, last], 4);
                            } else {
                                let e = ("runner"@, Status::Satisfied, "runner answering"@);
                                let all = c4 + seq![e];
                                assert(all =~= c0 + seq![a, b, c, d, e]);
                                assert forall|i: int| 0 <= i < 5 implies (#[trigger] all[c0.len() + i]).0
                                    == check_order()[i] by {
                                    assert(all[c0.len() + i] == seq![a, b, c, d, e][i]);
                                }
                            }
                        },
                        _ => {
                            let last = ("registry"@, Status::Blocked, "no device registered in .smix — every smix command takes an explicit device, and an alias is where that comes from"@);
                            assert(c3 + seq![last] =~= c0 + seq![a, b, c, last]);
                            lemma_chain_ids(c0, seq![a, b, c, last], 3);
                        },
                    }
                }
            }
        },
    }
}

proof fn lemma_one_blocked(prefix: Seq<CheckView>, last: CheckView, pos: nat)
    requires
        forall|i: int| 0 <= i < prefix.len() ==> (#[trigger] prefix[i]).1 == Status::Satisfied,
        last.1 == Status::Blocked,
    ensures
        (prefix + seq![last] + skipped_below(pos))[prefix.len() as int].1 == Status::Blocked,
        forall|j: int|
            0 <= j < (prefix + seq![last] + skipped_below(pos)).len() && j != prefix.len() ==> (#[trigger] (prefix
                + seq![last] + skipped_below(pos))[j]).1 != Status::Blocked,
{
    let out = prefix + seq![last] + skipped_below(pos);
    let n = prefix.len() as int;
    assert(out[n] == last);
    assert forall|j: int| 0 <= j < out.len() && j != n implies (#[trigger] out[j]).1 != Status::Blocked by {
        if j < n {
            assert(out[j] == prefix[j]);
        } else {
            assert(out[j] == skipped_below(pos)[j - n - 1]);
        }
    }
}

/// The facts under which nothing stands between here and driving: simctl
/// runs with a runtime and a device, a device is registered, and a runner
/// answers.
pub open spec fn all_satisfied(f: Facts) -> bool {
    &&& f.simctl matches Some(s)
    &&& s.available_runtimes > 0
    &&& s.available_devices > 0
    &&& f.registry matches Some(g)
    &&& g.aliases > 0
    &&& f.runner_up
}

/// A verdict is ready exactly when every fact it depends on holds; and a
/// verdict that is not ready has exactly one blocked check.
pub proof fn lemma_ready_exactly_when_all_hold(f: Facts)
    ensures
        verdict(f).0 <==> all_satisfied(f),
        !verdict(f).0 ==> exists|k: int|
            0 <= k < verdict(f).1.len() && (#[trigger] verdict(f).1[k]).1 == Status::Blocked && forall|j: int|
                0 <= j < verdict(f).1.len() && j != k ==> (#[trigger] verdict(f).1[j]).1 != Status::Blocked,
{
    let c0 = store_checks(f.downgradeable);
    assert(forall|i: int| 0 <= i < c0.len() ==> (#[trigger] c0[i]).1 == Status::Satisfied);
    let out = verdict(f).1;
    match f.simctl {
        None => {
            let last = ("simctl"@, Status::Blocked, "xcrun simctl could not be run — the Xcode command-line tools are not installed, or no Xcode is selected"@);
            lemma_one_blocked(c0, last, 0);
            assert(out[c0.len() as int].1 == Status::Blocked);
        },
        Some(s) => {
            let c1 = c0 + seq![("simctl"@, Status::Satisfied, "xcrun simctl reachable"@)];
            assert(forall|i: int| 0 <= i < c1.len() ==> (#[trigger] c1[i]).1 == Status::Satisfied);
            if s.available_runtimes == 0 {
                let last = ("runtime"@, Status::Blocked, "no available simulator runtime — Xcode is installed but carries no usable iOS runtime"@);
                lemma_one_blocked(c1, last, 1);
                assert(out[c1.len() as int].1 == Status::Blocked);
            } else {
                let c2 = c1 + seq![("runtime"@, Status::Satisfied, decimal(s.available_runtimes as nat) + " runtimes available"@)];
                assert(forall|i: int| 0 <= i < c2.len() ==> (#[trigger] c2[i]).1 == Status::Satisfied);
                if s.available_devices == 0 {
                    let last = ("device"@, Status::Blocked, "no available simulator — a runtime is installed but no device uses it"@);
                    lemma_one_blocked(c2, last, 2);
                    assert(out[c2.len() as int].1 == Status::Blocked);
                } else {
                    let c3 = c2 + seq![("device"@, Status::Satisfied, decimal(s.available_devices as nat) + " simulators available"@)];
                    assert(forall|i: int| 0 <= i < c3.len() ==> (#[trigger] c3[i]).1 == Status::Satisfied);
                    match f.registry {
                        Some(r) if r.aliases > 0 => {
                            let c4 = c3 + seq![("registry"@, Status::Satisfied, decimal(r.aliases as nat) + " device(s) registered in .smix"@)];
                            assert(forall|i: int| 0 <= i < c4.len() ==> (#[trigger] c4[i]).1 == Status::Satisfied);
                            if !f.runner_up {
                                let last = ("runner"@, Status::Blocked, "no runner answering — sense and act need one on the device"@);
                                lemma_one_blocked(c4, last, 4);
                                assert(out[c4.len() as int].1 == Status::Blocked);
                            }
                        },
                        _ => {
                            let last = ("registry"@, Status::Blocked, "no device registered in .smix — every smix command takes an explicit device, and an alias is where that comes from"@);
                            lemma_one_blocked(c3, last, 3);
                            assert(out[c3.len() as int].1 == Status::Blocked);
                        },
                    }
                }
            }
        },
    }
}

/// The store line never changes the outcome: it comes first, and the
/// rest of the checks, readiness and the next step are exactly what they
/// are for the same facts without it.
pub proof fn lemma_the_store_line_never_blocks(f: Facts)
    ensures
        verdict(f).1 == store_checks(f.downgradeable) + verdict(Facts { downgradeable: None, ..f }).1,
        verdict(f).0 == verdict(Facts { downgradeable: None, ..f }).0,
        verdict(f).2 == verdict(Facts { downgradeable: None, ..f }).2,
{
    let g = Facts { downgradeable: None, ..f };
    let c0 = store_checks(f.downgradeable);
    let e = Seq::<CheckView>::empty();
    assert(store_checks(g.downgradeable) == e);
    match f.simctl {
        None => {
            let last = ("simctl"@, Status::Blocked, "xcrun simctl could not be run — the Xcode command-line tools are not installed, or no Xcode is selected"@);
            assert(c0 + seq![last] + skipped_below(0) =~= c0 + (e + seq![last] + skipped_below(0)));
        },
        Some(s) => {
            let a = ("simctl"@, Status::Satisfied, "xcrun simctl reachable"@);
            if s.available_runtimes == 0 {
                let last = ("runtime"@, Status::Blocked, "no available simulator runtime — Xcode is installed but carries no usable iOS runtime"@);
                assert(c0 + seq![a] + seq![last] + skipped_below(1) =~= c0 + (e + seq![a] + seq![last] + skipped_below(1)));
            } else {
                let b = ("runtime"@, Status::Satisfied, decimal(s.available_runtimes as nat) + " runtimes available"@);
                if s.available_devices == 0 {
                    let last = ("device"@, Status::Blocked, "no available simulator — a runtime is installed but no device uses it"@);
                    assert(c0 + seq![a] + seq![b] + seq![last] + skipped_below(2) =~= c0 + (e + seq![a] + seq![b] + seq![last]
                        + skipped_below(2)));
                } else {
                    let c = ("device"@, Status::Satisfied, decimal(s.available_devices as nat) + " simulators available"@);
                    match f.registry {
                        Some(r) if r.aliases > 0 => {
                            let d = ("registry"@, Status::Satisfied, decimal(r.aliases as nat) + " device(s) registered in .smix"@);
                            if !f.runner_up {
                                let last = ("runner"@, Status::Blocked, "no runner answering — sense and act need one on the device"@);
                                assert(c0 + seq![a] + seq![b] + seq![c] + seq![d] + seq![last] + skipped_below(4) =~= c0 + (e
                                    + seq![a] + seq![b] + seq![c] + seq![d] + seq![last] + skipped_below(4)));
                            } else {
                                let z = ("runner"@, Status::Satisfied, "runner answering"@);
                                assert(c0 + seq![a] + seq![b] + seq![c] + seq![d] + seq![z] =~= c0 + (e + seq![a] + seq![b]
                                    + seq![c] + seq![d] + seq![z]));
                            }
                        },
                        _ => {
                            let last = ("registry"@, Status::Blocked, "no device registered in .smix — every smix command takes an explicit device, and an alias is where that comes from"@);
                            assert(c0 + seq![a] + seq![b] + seq![c] + seq![last] + skipped_below(3) =~= c0 + (e + seq![a]
                                + seq![b] + seq![c] + seq![last] + skipped_below(3)));
                        },
                    }
                }
            }
        },
    }
}

fn check(id: &'static str, status: Status, detail: String) -> (c: Check)
    ensures
        check_view(c) == (id@, status, detail@),
{
    Check { id, status, detail }
}

fn order_id(k: usize) -> (id: &'static str)
    requires
        k < 5,
    ensures
        id@ == check_order()[k as int],
{
    if k == 0 {
        "simctl"
    } else if k == 1 {
        "runtime"
    } else if k == 2 {
        "device"
    } else if k == 3 {
        "registry"
    } else {
        "runner"
    }
}

pub open spec fn check_views(v: Seq<Check>) -> Seq<CheckView> {
    v.map_values(|c: Check| check_view(c))
}

fn push_check(checks: &mut Vec<Check>, c: Check)
    ensures
        check_views(final(checks)@) == check_views(old(checks)@).push(check_view(c)),
{
    checks.push(c);
    assert(check_views(final(checks)@) =~= check_views(old(checks)@).push(check_view(c)));
}

/// Finish a verdict at the blocked check at position `pos` of the
/// chain, reporting every check below it as skipped.
fn blocked(checks: Vec<Check>, command: String, reason: String, pos: usize) -> (r: Readiness)
    requires
        pos < 5,
    ensures
        readiness_view(r) == finish_blocked(check_views(checks@), command@, reason@, pos as nat),
{
    let mut checks = checks;
    let ghost start = check_views(checks@);
    let ghost shown: Seq<Seq<char>> = check_order().skip(pos as int + 1);
    let mut k: usize = pos + 1;
    while k < 5
        invariant
            pos < k <= 5,
            shown == check_order().skip(pos as int + 1),
            check_views(checks@) == start + shown.take(k - pos - 1).map_values(
                |id: Seq<char>| (id, Status::Skipped, skipped_detail()),
            ),
        decreases 5 - k,
    {
        let c = check(order_id(k), Status::Skipped, owned("not checked — an earlier step has to pass first"));
        push_check(&mut checks, c);
        assert(shown[k - pos - 1] == check_order()[k as int]);
        assert(shown.take(k - pos) =~= shown.take(k - pos - 1).push(shown[k - pos - 1]));
        assert(shown.take(k - pos).map_values(|id: Seq<char>| (id, Status::Skipped, skipped_detail()))
            =~= shown.take(k - pos - 1).map_values(|id: Seq<char>| (id, Status::Skipped, skipped_detail())).push(
            (shown[k - pos - 1], Status::Skipped, skipped_detail())));
        k = k + 1;
    }
    assert(shown.take(k - pos - 1) =~= shown);
    let r = Readiness { ready: false, checks, next: Some(NextStep { command, reason }) };
    assert(readiness_view(r).1 =~= check_views(r.checks@));
    r
}


fn decimal_then(n: usize, tail: &str) -> (s: String)
    ensures
        s@ == decimal(n as nat) + tail@,
{
    let mut s = String::new();
    push_decimal(&mut s, n);
    s.append(tail);
    s
}

/// Judge the facts. Checks are ordered by dependency and stop at the
/// first blocked one; the store fact, when it applies, comes first and
/// never blocks.
pub fn assess(facts: &Facts) -> (r: Readiness)
    ensures
        readiness_view(r) == verdict(*facts),
{
    let mut checks: Vec<Check> = Vec::new();
    match facts.downgradeable {
        Some(true) => push_check(
            &mut checks,
            check(
                "store",
                Status::Satisfied,
                owned("the store is still readable by kevy 3 — downgrading smix is an install away"),
            ),
        ),
        Some(false) => push_check(
            &mut checks,
            check(
                "store",
                Status::Satisfied,
                owned(
                    "the store has upgraded its log format — going back to an older smix now needs a keyspace export through a client, not an install",
                ),
            ),
        ),
        None => {},
    }
    assert(check_views(checks@) =~= store_checks(facts.downgradeable));
    let simctl = match &facts.simctl {
        None => {
            push_check(
                &mut checks,
                check(
                    "simctl",
                    Status::Blocked,
                    owned(
                        "xcrun simctl could not be run — the Xcode command-line tools are not installed, or no Xcode is selected",
                    ),
                ),
            );
            return blocked(
                checks,
                owned("xcode-select --install"),
                owned("installs the command-line tools smix drives the simulator through"),
                0,
            );
        },
        Some(s) => s,
    };
    push_check(&mut checks, check("simctl", Status::Satisfied, owned("xcrun simctl reachable")));
    if simctl.available_runtimes == 0 {
        push_check(
            &mut checks,
            check(
                "runtime",
                Status::Blocked,
                owned(
                    "no available simulator runtime — Xcode is installed but carries no usable iOS runtime",
                ),
            ),
        );
        return blocked(
            checks,
            owned("xcodebuild -downloadPlatform iOS"),
            owned("downloads an iOS runtime, without which no simulator can boot"),
            1,
        );
    }
    push_check(
        &mut checks,
        check("runtime", Status::Satisfied, decimal_then(simctl.available_runtimes, " runtimes available")),
    );
    if simctl.available_devices == 0 {
        push_check(
            &mut checks,
            check(
                "device",
                Status::Blocked,
                owned("no available simulator — a runtime is installed but no device uses it"),
            ),
        );
        return blocked(
            checks,
            owned("xcrun simctl create smix-dev 'iPhone 17 Pro' <runtime-id>"),
            owned("creates a simulator for smix to register and drive"),
            2,
        );
    }
    push_check(
        &mut checks,
        check("device", Status::Satisfied, decimal_then(simctl.available_devices, " simulators available")),
    );
    let registered = match &facts.registry {
        Some(r) if r.aliases > 0 => r,
        _ => {
            push_check(
                &mut checks,
                check(
                    "registry",
                    Status::Blocked,
                    owned(
                        "no device registered in .smix — every smix command takes an explicit device, and an alias is where that comes from",
                    ),
                ),
            );
            return blocked(
                checks,
                owned("smix init"),
                owned("registers a simulator under an alias and creates the .smix registry"),
                3,
            );
        },
    };
    push_check(
        &mut checks,
        check("registry", Status::Satisfied, decimal_then(registered.aliases, " device(s) registered in .smix")),
    );
    let alias = match &registered.first_alias {
        Some(a) => a.clone(),
        None => owned("dev"),
    };
    if !facts.runner_up {
        push_check(
            &mut checks,
            check(
                "runner",
                Status::Blocked,
                owned("no runner answering — sense and act need one on the device"),
            ),
        );
        let mut command = owned("smix capsule up ");
        command.append(alias.as_str());
        command.append(" --bundle <your.bundle.id>");
        let mut reason = owned("boots the device and starts the runner that carries every tap and query");
        if !facts.capture_server_up {
            command.append(" --no-capture");
            reason.append(
                " (--no-capture because the capture server is not running; start smix-server first to record the session)",
            );
        }
        proof {
            reveal_strlit("");
            assert(command@ =~= "smix capsule up "@ + alias@ + " --bundle <your.bundle.id>"@ + (if facts.capture_server_up { ""@ } else { " --no-capture"@ }));
            assert(reason@ =~= "boots the device and starts the runner that carries every tap and query"@ + (if facts.capture_server_up { ""@ } else { " (--no-capture because the capture server is not running; start smix-server first to record the session)"@ }));
        }
        return blocked(checks, command, reason, 4);
    }
    push_check(&mut checks, check("runner", Status::Satisfied, owned("runner answering")));
    let r = Readiness { ready: true, checks, next: None };
    assert(readiness_view(r).1 =~= check_views(r.checks@));
    r
}


// ---- the doctor's report --------------------------------------------------------

/// The mark a check is shown with: a tick, a cross, or a bullet.
pub open spec fn mark(s: Status) -> Seq<char> {
    match s {
        Status::Satisfied => "\u{2713}"@,
        Status::Blocked => "\u{2717}"@,
        Status::Skipped => "\u{2022}"@,
    }
}

/// Each check, marked.
pub open spec fn check_lines(checks: Seq<CheckView>) -> Seq<Seq<char>>
    decreases checks.len(),
{
    if checks.len() == 0 {
        seq![]
    } else {
        check_lines(checks.drop_last()) + seq![mark(checks.last().1) + " "@ + checks.last().2]
    }
}

/// `smix doctor` as text: a heading, every check marked, the platform
/// note, then the next command and why, or that nothing is left.
pub open spec fn doctor_lines(r: ReadinessView) -> Seq<Seq<char>> {
    seq!["smix doctor"@, "============"@] + check_lines(r.1) + seq![PLATFORM_NOTE@] + match r.2 {
        Some((command, reason)) => seq![seq![], "next: "@ + command, "      "@ + reason],
        None => seq!["\nready — nothing left to set up"@],
    }
}

/// The lines `smix doctor` prints for a verdict.
pub fn doctor_report(r: &Readiness) -> (lines: Vec<String>)
    ensures
        strs(lines@) == doctor_lines(readiness_view(*r)),
{
    let mut lines: Vec<String> = Vec::new();
    lines.push(owned("smix doctor"));
    lines.push(owned("============"));
    let ghost head = strs(lines@);
    assert(head =~= seq!["smix doctor"@, "============"@]);
    let ghost cv = check_views(r.checks@);
    let mut i: usize = 0;
    assert(cv.take(0) =~= Seq::<CheckView>::empty());
    while i < r.checks.len()
        invariant
            i <= r.checks@.len(),
            cv == check_views(r.checks@),
            strs(lines@) == head + check_lines(cv.take(i as int)),
        decreases r.checks@.len() - i,
    {
        assert(cv.take(i + 1).drop_last() =~= cv.take(i as int));
        assert(cv.take(i + 1).last() == check_view(r.checks@[i as int]));
        let c = &r.checks[i];
        let mut line = match c.status {
            Status::Satisfied => owned("\u{2713}"),
            Status::Blocked => owned("\u{2717}"),
            Status::Skipped => owned("\u{2022}"),
        };
        line.append(" ");
        line.append(c.detail.as_str());
        let ghost before = strs(lines@);
        lines.push(line);
        assert(strs(lines@) =~= before.push(mark(c.status) + " "@ + c.detail@));
        assert(head + check_lines(cv.take(i + 1)) =~= head + check_lines(cv.take(i as int)) + seq![
            mark(c.status) + " "@ + c.detail@,
        ]);
        i = i + 1;
    }
    assert(cv.take(i as int) =~= cv);
    let ghost body = strs(lines@);
    lines.push(owned(PLATFORM_NOTE));
    match &r.next {
        Some(n) => {
            lines.push(String::new());
            let mut a = owned("next: ");
            a.append(n.command.as_str());
            lines.push(a);
            let mut b = owned("      ");
            b.append(n.reason.as_str());
            lines.push(b);
            assert(strs(lines@) =~= body + seq![PLATFORM_NOTE@] + seq![seq![], "next: "@ + n.command@, "      "@ + n.reason@]);
        },
        None => {
            lines.push(owned("\nready — nothing left to set up"));
            assert(strs(lines@) =~= body + seq![PLATFORM_NOTE@] + seq!["\nready — nothing left to set up"@]);
        },
    }
    lines
}

/// The registry as the doctor sees it: nothing when no alias is
/// registered, else how many and the first.
pub fn registry_facts(aliases: &[String]) -> (r: Option<RegistryFacts>)
    ensures
        aliases@.len() == 0 ==> r is None,
        aliases@.len() > 0 ==> (r matches Some(f) && f.aliases == aliases@.len() && (f.first_alias matches Some(
            a,
        ) && a@ == aliases@[0]@)),
{
    if aliases.len() == 0 {
        return None;
    }
    Some(RegistryFacts { aliases: aliases.len(), first_alias: Some(owned(aliases[0].as_str())) })
}


/// How many of the flags are set.
pub open spec fn count_set(flags: Seq<bool>) -> nat {
    flags.filter(|b: bool| b).len()
}

fn count_flags(flags: &[bool]) -> (n: usize)
    ensures
        n == count_set(flags@),
{
    let mut n: usize = 0;
    let mut i: usize = 0;
    while i < flags.len()
        invariant
            i <= flags@.len(),
            n == count_set(flags@.take(i as int)),
            n <= i,
        decreases flags@.len() - i,
    {
        proof {
            let pred = |b: bool| b;
            assert(flags@.take(i as int + 1) =~= flags@.take(i as int) + seq![flags@[i as int]]);
            Seq::filter_distributes_over_add(flags@.take(i as int), seq![flags@[i as int]], pred);
            reveal_with_fuel(Seq::filter, 2);
            assert(seq![flags@[i as int]].drop_last() =~= Seq::<bool>::empty());
        }
        if flags[i] {
            n = n + 1;
        }
        i = i + 1;
    }
    assert(flags@.take(i as int) =~= flags@);
    n
}

/// The simctl facts, from the availability flag of each runtime and of
/// each device that `simctl list` reported.
pub fn simctl_facts(runtime_available: &[bool], device_available: &[bool]) -> (r: SimctlFacts)
    ensures
        r.available_runtimes == count_set(runtime_available@),
        r.available_devices == count_set(device_available@),
{
    SimctlFacts { available_runtimes: count_flags(runtime_available), available_devices: count_flags(device_available) }
}


/// When only the runner is missing, the next step is a `capsule up` of
/// the alias the registry lists first (`dev` when it lists none), with
/// `--no-capture` exactly when no capture server answers.
pub proof fn lemma_the_next_step_names_the_registered_alias(f: Facts)
    requires
        f.simctl matches Some(s) && s.available_runtimes > 0 && s.available_devices > 0,
        f.registry matches Some(r) && r.aliases > 0,
        !f.runner_up,
    ensures
        verdict(f).2 matches Some((command, _)) && command == "smix capsule up "@ + match f.registry->0.first_alias {
            Some(a) => a@,
            None => "dev"@,
        } + " --bundle <your.bundle.id>"@ + if f.capture_server_up {
            ""@
        } else {
            " --no-capture"@
        },
{
}


/// The next step is the fix for the first fact that is missing: the
/// command-line tools, then a runtime, then a simulator, then a
/// registered alias; and there is none once everything holds.
pub proof fn lemma_the_next_step_fixes_the_first_missing_fact(f: Facts)
    ensures
        f.simctl is None ==> (verdict(f).2 matches Some((c, _)) && c == "xcode-select --install"@),
        (f.simctl matches Some(s) && s.available_runtimes == 0) ==> (verdict(f).2 matches Some((c, _)) && c
            == "xcodebuild -downloadPlatform iOS"@),
        (f.simctl matches Some(s) && s.available_runtimes > 0 && s.available_devices == 0) ==> (verdict(f).2 matches Some(
            (c, _),
        ) && c == "xcrun simctl create smix-dev 'iPhone 17 Pro' <runtime-id>"@),
        (f.simctl matches Some(s) && s.available_runtimes > 0 && s.available_devices > 0 && !(f.registry matches Some(
            r,
        ) && r.aliases > 0)) ==> (verdict(f).2 matches Some((c, _)) && c == "smix init"@),
        all_satisfied(f) ==> verdict(f).2 is None,
{
}

} // verus!
